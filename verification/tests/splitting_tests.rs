use unjosefizer::Error;
use unjosefizer::mesh::{Mesh, Triangle, Triangles, Vertex, Vertices};
use unjosefizer::model::{Object, ObjectData};
use unjosefizer::splitting::{SplitModel, convert_paint};

fn vx(x: u64, y: u64, z: u64) -> Vertex {
    Vertex { x, y, z }
}

fn split_tri(v1: usize, v2: usize, v3: usize, ps: Option<&str>) -> unjosefizer::splitting::Triangle {
    unjosefizer::splitting::Triangle { v1, v2, v3, mmu_ps: ps.map(|s| s.to_string()) }
}

#[test]
fn paint_transfers_across_reindexed_vertices_and_winding() {
    // The same physical triangle, re-indexed and wound differently.
    // Source vertices A, B, C; target stores them as [B, C, A] and
    // its triangle as (2, 1, 0) = A, C, B. The vertex correspondence
    // maps A to 2, B to 0 and C to 1; the sorted triples agree, so
    // the paint crosses over.
    let painted = SplitModel {
        vertices: vec![vx(10, 0, 0), vx(20, 0, 0), vx(30, 0, 0)],
        triangles: vec![split_tri(0, 1, 2, Some("4"))],
    };
    let mut split = SplitModel {
        vertices: vec![vx(20, 0, 0), vx(30, 0, 0), vx(10, 0, 0)],
        triangles: vec![split_tri(2, 1, 0, None)],
    };
    let nearest = vec![2, 0, 1];
    assert_eq!(convert_paint(&painted, &mut split, &nearest), Ok(()));
    assert_eq!(split.triangles[0].mmu_ps.as_deref(), Some("4"));
}

#[test]
fn unmatched_source_triangle_is_dropped() {
    // The target has no triangle with the mapped triple; nothing is
    // written.
    let painted = SplitModel {
        vertices: vec![vx(1, 0, 0), vx(2, 0, 0), vx(3, 0, 0)],
        triangles: vec![split_tri(0, 1, 2, Some("4"))],
    };
    let mut split = SplitModel {
        vertices: vec![vx(1, 0, 0), vx(2, 0, 0), vx(3, 0, 0), vx(4, 0, 0)],
        triangles: vec![split_tri(1, 2, 3, None)],
    };
    let nearest = vec![0, 1, 2];
    assert_eq!(convert_paint(&painted, &mut split, &nearest), Ok(()));
    assert!(split.triangles[0].mmu_ps.is_none());
}

#[test]
fn later_source_triangle_wins_on_one_target() {
    let painted = SplitModel {
        vertices: vec![vx(1, 0, 0), vx(2, 0, 0), vx(3, 0, 0)],
        triangles: vec![split_tri(0, 1, 2, Some("4")), split_tri(2, 0, 1, Some("8"))],
    };
    let mut split = SplitModel {
        vertices: vec![vx(1, 0, 0), vx(2, 0, 0), vx(3, 0, 0)],
        triangles: vec![split_tri(0, 1, 2, None)],
    };
    let nearest = vec![0, 1, 2];
    assert_eq!(convert_paint(&painted, &mut split, &nearest), Ok(()));
    assert_eq!(split.triangles[0].mmu_ps.as_deref(), Some("8"));
}

#[test]
fn from_object_requires_a_mesh() {
    let object = Object {
        id: 1,
        partnumber: None,
        name: None,
        uuid: None,
        pid: None,
        ty: None,
        object: ObjectData::Components { component: Vec::new() },
    };
    assert!(matches!(SplitModel::from_object(&object), Err(Error::UnsupportedShape)));
}

#[test]
fn round_trip_through_object() {
    let object = Object {
        id: 1,
        partnumber: None,
        name: None,
        uuid: None,
        pid: None,
        ty: None,
        object: ObjectData::Mesh(Mesh {
            vertices: Vertices { vertex: vec![vx(0, 0, 0), vx(1, 0, 0), vx(0, 1, 0)] },
            triangles: Triangles {
                triangle: vec![Triangle {
                    v1: 0,
                    v2: 1,
                    v3: 2,
                    mmu_ps: Some("4".to_string()),
                    mmu_orca: None,
                }],
            },
        }),
    };
    let s = SplitModel::from_object(&object).unwrap();
    assert!(s.is_painted());
    assert_eq!(s.triangles.len(), 1);
    assert_eq!(s.vertices.len(), 3);

    let mut target = object;
    let mut s2 = s;
    s2.triangles[0].mmu_ps = Some("8".to_string());
    assert_eq!(s2.update_object(&mut target), Ok(()));
    match &target.object {
        ObjectData::Mesh(m) => {
            assert_eq!(m.triangles.triangle[0].mmu_ps.as_deref(), Some("8"));
            assert!(m.triangles.triangle[0].mmu_orca.is_none());
        }
        ObjectData::Components { .. } => panic!("expected a mesh"),
    }
}

#[test]
fn identical_copy_after_divergent_transfer_is_a_no_op() {
    // Divergent transfer first: the paint lands on the target. An
    // identical-topology copy of the flat dialect from an equal
    // source afterwards changes nothing.
    let painted = SplitModel {
        vertices: vec![vx(1, 0, 0), vx(2, 0, 0), vx(3, 0, 0)],
        triangles: vec![split_tri(0, 1, 2, Some("4"))],
    };
    let mut split = SplitModel {
        vertices: vec![vx(1, 0, 0), vx(2, 0, 0), vx(3, 0, 0)],
        triangles: vec![split_tri(0, 1, 2, None)],
    };
    let nearest = vec![0, 1, 2];
    assert_eq!(convert_paint(&painted, &mut split, &nearest), Ok(()));
    assert_eq!(split.triangles[0].mmu_ps.as_deref(), Some("4"));

    let to_mesh = |s: &SplitModel| Mesh {
        vertices: Vertices { vertex: s.vertices.clone() },
        triangles: Triangles {
            triangle: s
                .triangles
                .iter()
                .map(|t| Triangle {
                    v1: t.v1,
                    v2: t.v2,
                    v3: t.v3,
                    mmu_ps: t.mmu_ps.clone(),
                    mmu_orca: None,
                })
                .collect(),
        },
    };
    let from = to_mesh(&split);
    let mut to = to_mesh(&split);
    assert_eq!(unjosefizer::instancing::_copy_paint_mesh(&from, &mut to, false), Ok(()));
    assert_eq!(to.triangles.triangle[0].mmu_ps.as_deref(), Some("4"));
    assert_eq!(to.triangles.triangle[0].v1, 0);
    assert_eq!(to.triangles.triangle.len(), from.triangles.triangle.len());
    assert!(to.triangles.triangle[0].mmu_orca.is_none());
}

#[test]
fn unpainted_model_reports_unpainted() {
    let s = SplitModel {
        vertices: vec![vx(0, 0, 0)],
        triangles: vec![split_tri(0, 0, 0, None)],
    };
    assert!(!s.is_painted());
}
