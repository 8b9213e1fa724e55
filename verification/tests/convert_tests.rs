use std::collections::HashMap;

use unjosefizer::Error;
use unjosefizer::mesh::{Mesh, Triangle, Triangles, Vertex, Vertices};
use unjosefizer::metadata::orca_metadata as orca;
use unjosefizer::model::{Build, Component, Model, Object, ObjectData, Resources, Unit};
use unjosefizer::model_orca::{OrcaModel, SubModel, SubModelCache};
use unjosefizer::paint_convert::{convert_mesh_color, convert_model_color, parse_hex_color};
use unjosefizer::utils::{parse_decimal, str_eq, strip_lead_sep, usize_to_string};

fn vx(x: u64, y: u64, z: u64) -> Vertex {
    Vertex { x, y, z }
}

fn painted_mesh(paint: Option<&str>) -> Mesh {
    Mesh {
        vertices: Vertices { vertex: vec![vx(0, 0, 0), vx(1, 0, 0), vx(0, 1, 0)] },
        triangles: Triangles {
            triangle: vec![Triangle {
                v1: 0,
                v2: 1,
                v3: 2,
                mmu_ps: None,
                mmu_orca: paint.map(|s| s.to_string()),
            }],
        },
    }
}

#[test]
fn mesh_paint_is_remapped_per_triangle() {
    let mut m = painted_mesh(Some("0"));
    let table = vec![Some(1usize)];
    assert_eq!(convert_mesh_color(&mut m, table), Ok(()));
    assert_eq!(m.triangles.triangle[0].mmu_orca.as_deref(), Some("4"));
}

#[test]
fn mesh_with_bad_paint_is_left_untouched() {
    let mut m = painted_mesh(Some("1"));
    let table = vec![Some(1usize)];
    assert_eq!(convert_mesh_color(&mut m, table), Err(Error::UnsupportedPaintStructure));
    assert_eq!(m.triangles.triangle[0].mmu_orca.as_deref(), Some("1"));
}

fn orca_for_convert(paint: &str, extruder: &str) -> OrcaModel {
    let mut cache = SubModelCache::new();
    cache.insert(
        "sub.model".to_string(),
        SubModel {
            id: 1,
            model: Model {
                xmlns: String::new(),
                bambustudio: String::new(),
                p: String::new(),
                requiredextensions: String::new(),
                metadata: Vec::new(),
                resources: Resources {
                    object: vec![Object {
                        id: 7,
                        partnumber: None,
                        name: None,
                        uuid: None,
                        pid: None,
                        ty: None,
                        object: ObjectData::Mesh(painted_mesh(Some(paint))),
                    }],
                },
                build: Build { item: Vec::new() },
                unit: Unit::Millimeter,
            },
        },
    );
    OrcaModel {
        model: Model {
            xmlns: String::new(),
            bambustudio: String::new(),
            p: String::new(),
            requiredextensions: String::new(),
            metadata: Vec::new(),
            resources: Resources {
                object: vec![Object {
                    id: 1,
                    partnumber: None,
                    name: None,
                    uuid: None,
                    pid: None,
                    ty: None,
                    object: ObjectData::Components {
                        component: vec![Component {
                            objectid: 7,
                            transform: None,
                            uuid: None,
                            path: Some("/sub.model".to_string()),
                        }],
                    },
                }],
            },
            build: Build { item: Vec::new() },
            unit: Unit::Millimeter,
        },
        slice_cfg: String::new(),
        md: orca::OrcaMetadata {
            object: vec![orca::Object {
                id: 1,
                metadata: vec![orca::Metadata {
                    key: Some("extruder".to_string()),
                    value: Some(extruder.to_string()),
                }],
                part: Vec::new(),
            }],
            assemble: Vec::new(),
        },
        sub_models: cache,
        sub_model_ids: Vec::new(),
        empty_models: Vec::new(),
        sub_objects: Vec::new(),
        painted: Vec::new(),
        rels: String::new(),
    }
}

#[test]
fn model_color_conversion_rewrites_paint_and_extruder() {
    let m = orca_for_convert("0", "0");
    let table = vec![Some(2usize)];
    let selected: HashMap<u32, bool> = HashMap::new();
    let m2 = convert_model_color(m, table, &selected).unwrap();
    let idx = m2.sub_models.find("sub.model").unwrap();
    match &m2.sub_models.models[idx].model.resources.object[0].object {
        ObjectData::Mesh(mm) => {
            assert_eq!(mm.triangles.triangle[0].mmu_orca.as_deref(), Some("8"));
        }
        ObjectData::Components { .. } => panic!("expected a mesh"),
    }
    assert_eq!(m2.md.object[0].metadata[0].value.as_deref(), Some("2"));
}

#[test]
fn unmapped_extruder_is_left_alone() {
    let m = orca_for_convert("4", "5");
    let table = vec![Some(2usize)];
    let selected: HashMap<u32, bool> = HashMap::new();
    let m2 = convert_model_color(m, table, &selected).unwrap();
    assert_eq!(m2.md.object[0].metadata[0].value.as_deref(), Some("5"));
}

#[test]
fn missing_sub_model_fails_the_conversion() {
    let mut m = orca_for_convert("0", "0");
    m.sub_models = SubModelCache::new();
    let table = vec![Some(2usize)];
    let selected: HashMap<u32, bool> = HashMap::new();
    assert!(matches!(
        convert_model_color(m, table, &selected),
        Err(Error::DanglingReference)
    ));
}

#[test]
fn model_to_ps_moves_paint_for_the_flat_save() {
    let mut model = Model {
        xmlns: String::new(),
        bambustudio: String::new(),
        p: String::new(),
        requiredextensions: String::new(),
        metadata: Vec::new(),
        resources: Resources {
            object: vec![Object {
                id: 1,
                partnumber: None,
                name: None,
                uuid: None,
                pid: None,
                ty: None,
                object: ObjectData::Mesh(painted_mesh(Some("4"))),
            }],
        },
        build: Build { item: Vec::new() },
        unit: Unit::Millimeter,
    };
    assert_eq!(model.to_ps(), Ok(()));
    match &model.resources.object[0].object {
        ObjectData::Mesh(m) => {
            assert_eq!(m.triangles.triangle[0].mmu_ps.as_deref(), Some("4"));
            assert!(m.triangles.triangle[0].mmu_orca.is_none());
        }
        ObjectData::Components { .. } => panic!("expected a mesh"),
    }
}

#[test]
fn model_to_ps_rejects_component_documents() {
    let mut model = Model {
        resources: Resources {
            object: vec![Object {
                id: 1,
                partnumber: None,
                name: None,
                uuid: None,
                pid: None,
                ty: None,
                object: ObjectData::Components { component: Vec::new() },
            }],
        },
        ..Model::default()
    };
    assert_eq!(model.to_ps(), Err(Error::UnsupportedShape));
}

#[test]
fn hex_colors_parse_in_both_cases() {
    assert_eq!(parse_hex_color("#A0b1C2"), Some((160, 177, 194)));
    assert_eq!(parse_hex_color("#000000"), Some((0, 0, 0)));
    assert_eq!(parse_hex_color("#ffffff"), Some((255, 255, 255)));
    assert_eq!(parse_hex_color("A0b1C2"), None);
    assert_eq!(parse_hex_color("#A0b1C"), None);
    assert_eq!(parse_hex_color("#A0b1Cg"), None);
}

#[test]
fn decimal_helpers_round_trip() {
    assert_eq!(parse_decimal("0"), Some(0));
    assert_eq!(parse_decimal("42"), Some(42));
    assert_eq!(parse_decimal("007"), Some(7));
    assert_eq!(parse_decimal(""), None);
    assert_eq!(parse_decimal("4x"), None);
    assert_eq!(parse_decimal("99999999999999999999999999"), None);
    assert_eq!(usize_to_string(0), "0");
    assert_eq!(usize_to_string(9070), "9070");
}

#[test]
fn string_helpers() {
    assert!(str_eq("abc", "abc"));
    assert!(!str_eq("abc", "abd"));
    assert!(!str_eq("abc", "ab"));
    assert_eq!(strip_lead_sep("/3D/sub.model"), "3D/sub.model");
    assert_eq!(strip_lead_sep("3D/sub.model"), "3D/sub.model");
    assert_eq!(strip_lead_sep(""), "");
}

#[test]
fn default_document_is_empty_millimeter() {
    let m = Model::default();
    assert_eq!(m.xmlns, "http://schemas.microsoft.com/3dmanufacturing/core/2015/02");
    assert!(m.resources.object.is_empty());
    assert!(matches!(m.unit, Unit::Millimeter));
    assert!(matches!(Unit::default(), Unit::Millimeter));
}
