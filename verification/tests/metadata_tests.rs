use unjosefizer::metadata::orca_metadata as orca;
use unjosefizer::metadata::ps_metadata as ps;
use unjosefizer::model::{Build, Component, Item, ObjectData};

#[test]
fn ps_object_lookup_and_name() {
    let md = ps::PSMetadata {
        object: vec![
            ps::Object { id: 4, instances_count: 1, metadata: Vec::new(), volume: Vec::new() },
            ps::Object {
                id: 9,
                instances_count: 1,
                metadata: vec![
                    ps::Metadata {
                        ty: "object".to_string(),
                        key: Some("other".to_string()),
                        value: Some("x".to_string()),
                    },
                    ps::Metadata {
                        ty: "object".to_string(),
                        key: Some("name".to_string()),
                        value: Some("gem".to_string()),
                    },
                ],
                volume: Vec::new(),
            },
        ],
    };
    assert!(md.get_object_by_id(3).is_none());
    let ob = md.get_object_by_id(9).unwrap();
    assert_eq!(ob.get_name().as_deref(), Some("gem"));
    assert!(md.get_object_by_id(4).unwrap().get_name().is_none());
}

#[test]
fn orca_object_and_part_lookup() {
    let md = orca::OrcaMetadata {
        object: vec![orca::Object {
            id: 2,
            metadata: Vec::new(),
            part: vec![orca::Part {
                id: 5,
                subtype: "normal_part".to_string(),
                metadata: vec![orca::Metadata {
                    key: Some("matrix".to_string()),
                    value: Some("1 0 0".to_string()),
                }],
                mesh_stat: orca::MeshStat {
                    edges_fixed: 0,
                    degenerate_facets: 0,
                    facets_removed: 0,
                    facets_reversed: 0,
                    backwards_edges: 0,
                },
            }],
        }],
        assemble: Vec::new(),
    };
    let ob = md.get_object_by_id(2).unwrap();
    let part = ob.get_part_by_id(5).unwrap();
    assert_eq!(
        orca::get_keyed_value(&part.metadata, "matrix"),
        Some(Some("1 0 0".to_string()))
    );
    assert_eq!(orca::get_keyed_value(&part.metadata, "name"), None);
    assert!(ob.get_part_by_id(6).is_none());
}

#[test]
fn build_item_lookup_finds_the_first_match() {
    let build = Build {
        item: vec![
            Item { objectid: 1, transform: None, partnumber: None },
            Item { objectid: 2, transform: Some([0; 12]), partnumber: Some("p".to_string()) },
        ],
    };
    assert!(build.get_item_by_id(3).is_none());
    let it = build.get_item_by_id(2).unwrap();
    assert_eq!(it.partnumber.as_deref(), Some("p"));
}

#[test]
fn object_data_getters_follow_the_variant() {
    let mut d = ObjectData::Components {
        component: vec![Component { objectid: 3, transform: None, uuid: None, path: None }],
    };
    assert!(d.get_mesh().is_none());
    assert!(d.get_mesh_mut().is_none());
    assert_eq!(d.get_components().unwrap().len(), 1);
    let comps = d.get_components_mut().unwrap();
    comps.push(Component { objectid: 4, transform: None, uuid: None, path: None });
    assert_eq!(d.get_components().unwrap().len(), 2);
}
