use unjosefizer::Error;
use unjosefizer::instancing::copy_paint_mesh;
use unjosefizer::mesh::{Mesh, Triangle, Triangles, Vertex, Vertices};

fn vx(x: u64, y: u64, z: u64) -> Vertex {
    Vertex { x, y, z }
}

fn tri(v1: usize, v2: usize, v3: usize, ps: Option<&str>, orca: Option<&str>) -> Triangle {
    Triangle {
        v1,
        v2,
        v3,
        mmu_ps: ps.map(|s| s.to_string()),
        mmu_orca: orca.map(|s| s.to_string()),
    }
}

fn mesh(verts: Vec<Vertex>, tris: Vec<Triangle>) -> Mesh {
    Mesh { vertices: Vertices { vertex: verts }, triangles: Triangles { triangle: tris } }
}

#[test]
fn merge_offsets_indices_and_concatenates() {
    let mut a = mesh(vec![vx(1, 2, 3), vx(4, 5, 6)], vec![tri(0, 1, 0, None, None)]);
    let b = mesh(
        vec![vx(7, 8, 9), vx(10, 11, 12), vx(13, 14, 15)],
        vec![tri(0, 1, 2, None, Some("4"))],
    );
    let offset = a.merge(&b);
    assert_eq!(offset, 2);
    assert_eq!(a.vertices.vertex.len(), 5);
    assert_eq!(a.triangles.triangle.len(), 2);
    assert_eq!(a.vertices.vertex[2], vx(7, 8, 9));
    let t = &a.triangles.triangle[1];
    assert_eq!((t.v1, t.v2, t.v3), (2, 3, 4));
    assert_eq!(t.mmu_orca.as_deref(), Some("4"));
}

#[test]
fn to_ps_moves_modern_paint_into_legacy() {
    let mut m = mesh(
        vec![vx(0, 0, 0), vx(1, 0, 0), vx(0, 1, 0)],
        vec![
            tri(0, 1, 2, None, Some("8")),
            tri(0, 1, 2, Some("4"), None),
            tri(0, 1, 2, None, None),
        ],
    );
    m.to_ps();
    assert_eq!(m.triangles.triangle[0].mmu_ps.as_deref(), Some("8"));
    assert!(m.triangles.triangle[0].mmu_orca.is_none());
    assert_eq!(m.triangles.triangle[1].mmu_ps.as_deref(), Some("4"));
    assert!(m.triangles.triangle[2].mmu_ps.is_none());
}

#[test]
fn remove_and_apply_verts() {
    let mut m = mesh(vec![vx(1, 1, 1), vx(2, 2, 2)], vec![tri(0, 1, 0, None, None)]);
    let out = m.remove_verts();
    assert_eq!(out.len(), 2);
    assert_eq!(m.vertices.vertex.len(), 0);
    m.apply_verts(&out);
    assert_eq!(m.vertices.vertex.len(), 2);
    assert_eq!(m.vertices.vertex[1], vx(2, 2, 2));
}

#[test]
fn copy_paint_mesh_copies_by_position() {
    let from = mesh(
        vec![vx(0, 0, 0), vx(1, 0, 0), vx(0, 1, 0)],
        vec![tri(0, 1, 2, None, Some("4")), tri(2, 1, 0, None, None)],
    );
    let mut to = mesh(
        vec![vx(0, 0, 0), vx(1, 0, 0), vx(0, 1, 0)],
        vec![tri(0, 1, 2, None, None), tri(2, 1, 0, None, Some("8"))],
    );
    assert_eq!(copy_paint_mesh(&from, &mut to), Ok(()));
    assert_eq!(to.triangles.triangle[0].mmu_orca.as_deref(), Some("4"));
    assert!(to.triangles.triangle[1].mmu_orca.is_none());
}

#[test]
fn copy_paint_mesh_rejects_topology_mismatch() {
    let from = mesh(
        vec![vx(0, 0, 0), vx(1, 0, 0), vx(0, 1, 0)],
        vec![tri(0, 1, 2, None, Some("4"))],
    );
    let mut to = mesh(vec![vx(0, 0, 0), vx(1, 0, 0)], vec![tri(0, 1, 0, None, None)]);
    assert_eq!(copy_paint_mesh(&from, &mut to), Err(Error::TopologyMismatch));
    // Nothing moved.
    assert!(to.triangles.triangle[0].mmu_orca.is_none());
}

#[test]
fn copy_paint_mesh_is_idempotent_on_converged_data() {
    // Copying onto a target whose paint already matches changes
    // nothing: the identical-topology copy after a divergent-topology
    // transfer is a no-op once the data has converged.
    let from = mesh(
        vec![vx(0, 0, 0), vx(1, 0, 0), vx(0, 1, 0)],
        vec![tri(0, 1, 2, None, Some("4")), tri(2, 1, 0, None, None)],
    );
    let mut to = mesh(
        vec![vx(0, 0, 0), vx(1, 0, 0), vx(0, 1, 0)],
        vec![tri(0, 1, 2, None, Some("4")), tri(2, 1, 0, None, None)],
    );
    assert_eq!(copy_paint_mesh(&from, &mut to), Ok(()));
    assert_eq!(to.triangles.triangle[0].mmu_orca.as_deref(), Some("4"));
    assert_eq!(to.triangles.triangle[0].v1, 0);
    assert!(to.triangles.triangle[1].mmu_orca.is_none());
    assert!(to.triangles.triangle[0].mmu_ps.is_none());
}
