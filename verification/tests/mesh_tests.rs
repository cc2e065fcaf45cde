use gru_core::extract::mesh_builder;
use gru_core::model::{Axis, EdgeId};
use std::collections::{HashMap, HashSet};

/// Sample `field` on the lattice of a grid spanning `[offset - radii,
/// offset + radii]` with `n = (nx, ny, nz)` voxels: one inside bit per
/// lattice point, negative meaning inside.
fn sample_grid(
    n: (u32, u32, u32),
    offset: (f32, f32, f32),
    radii: (f32, f32, f32),
    field: &dyn Fn(f32, f32, f32) -> f32,
) -> Vec<bool> {
    let (nx, ny, nz) = n;
    let step = (
        2.0 * radii.0 / nx as f32,
        2.0 * radii.1 / ny as f32,
        2.0 * radii.2 / nz as f32,
    );
    let mut bits = Vec::new();
    for z in 0..=nz {
        for y in 0..=ny {
            for x in 0..=nx {
                let px = offset.0 - radii.0 + step.0 * x as f32;
                let py = offset.1 - radii.1 + step.1 * y as f32;
                let pz = offset.2 - radii.2 + step.2 * z as f32;
                bits.push(field(px, py, pz) < 0.0);
            }
        }
    }
    bits
}

/// World position of a lattice point.
fn lattice_pos(
    l: (u32, u32, u32),
    n: (u32, u32, u32),
    offset: (f32, f32, f32),
    radii: (f32, f32, f32),
) -> (f32, f32, f32) {
    let step = (
        2.0 * radii.0 / n.0 as f32,
        2.0 * radii.1 / n.1 as f32,
        2.0 * radii.2 / n.2 as f32,
    );
    (
        offset.0 - radii.0 + step.0 * l.0 as f32,
        offset.1 - radii.1 + step.1 * l.1 as f32,
        offset.2 - radii.2 + step.2 * l.2 as f32,
    )
}

/// The two lattice endpoints of an edge vertex.
fn edge_ends(e: &EdgeId) -> ((u32, u32, u32), (u32, u32, u32)) {
    let a = (e.x, e.y, e.z);
    let b = match e.axis {
        Axis::X => (e.x + 1, e.y, e.z),
        Axis::Y => (e.x, e.y + 1, e.z),
        Axis::Z => (e.x, e.y, e.z + 1),
    };
    (a, b)
}

/// Interpolated world position of an edge vertex, as the surrounding
/// renderer would compute it.
fn vertex_pos(
    e: &EdgeId,
    n: (u32, u32, u32),
    offset: (f32, f32, f32),
    radii: (f32, f32, f32),
    field: &dyn Fn(f32, f32, f32) -> f32,
) -> (f32, f32, f32) {
    let (la, lb) = edge_ends(e);
    let pa = lattice_pos(la, n, offset, radii);
    let pb = lattice_pos(lb, n, offset, radii);
    let va = field(pa.0, pa.1, pa.2);
    let vb = field(pb.0, pb.1, pb.2);
    let t = va / (va - vb);
    (
        pa.0 + t * (pb.0 - pa.0),
        pa.1 + t * (pb.1 - pa.1),
        pa.2 + t * (pb.2 - pa.2),
    )
}

/// Structural sanity of a mesh: index triples, bounds, vertex uniqueness.
fn check_mesh_basics(verts: &Vec<EdgeId>, inds: &Vec<u32>, voxels: u64) {
    assert_eq!(inds.len() % 3, 0);
    for &i in inds.iter() {
        assert!((i as usize) < verts.len());
    }
    let unique: HashSet<EdgeId> = verts.iter().cloned().collect();
    assert_eq!(unique.len(), verts.len());
    assert!(verts.len() as u64 <= 12 * voxels);
}

/// Closed-surface check: every triangle edge is shared by exactly two
/// triangles, once per direction, and the Euler characteristic is that of
/// a sphere.
fn check_closed_sphere(verts: &Vec<EdgeId>, inds: &Vec<u32>) {
    let mut directed: HashMap<(u32, u32), u32> = HashMap::new();
    let mut undirected: HashMap<(u32, u32), u32> = HashMap::new();
    for t in inds.chunks(3) {
        assert!(t[0] != t[1] && t[1] != t[2] && t[0] != t[2]);
        for k in 0..3 {
            let a = t[k];
            let b = t[(k + 1) % 3];
            *directed.entry((a, b)).or_insert(0) += 1;
            let key = (a.min(b), a.max(b));
            *undirected.entry(key).or_insert(0) += 1;
        }
    }
    for (&(a, b), &c) in directed.iter() {
        assert_eq!(c, 1);
        assert_eq!(directed.get(&(b, a)), Some(&1));
    }
    for (_, &c) in undirected.iter() {
        assert_eq!(c, 2);
    }
    let v = verts.len() as i64;
    let e = undirected.len() as i64;
    let f = (inds.len() / 3) as i64;
    assert_eq!(v - e + f, 2);
}

fn sphere(r: f32) -> impl Fn(f32, f32, f32) -> f32 {
    move |x, y, z| (x * x + y * y + z * z).sqrt() - r
}

#[test]
fn sphere_mesh_is_closed_and_deduplicated() {
    for n in [4u32, 9, 16] {
        let dims = (n, n, n);
        let grid = sample_grid(dims, (0.0, 0.0, 0.0), (1.0, 1.0, 1.0), &sphere(0.8));
        let (verts, inds) = mesh_builder(n, n, n, &grid);
        assert!(!verts.is_empty());
        check_mesh_basics(&verts, &inds, (n as u64).pow(3));
        check_closed_sphere(&verts, &inds);
    }
}

#[test]
fn constant_fields_make_empty_meshes() {
    // All outside: a positive field has no zero crossing.
    let grid = sample_grid((3, 3, 3), (0.0, 0.0, 0.0), (1.0, 1.0, 1.0), &|_, _, _| 1.0);
    let (verts, inds) = mesh_builder(3, 3, 3, &grid);
    assert_eq!(verts.len(), 0);
    assert_eq!(inds.len(), 0);
    // All inside as well.
    let grid = sample_grid((3, 3, 3), (0.0, 0.0, 0.0), (1.0, 1.0, 1.0), &|_, _, _| -1.0);
    let (verts, inds) = mesh_builder(3, 3, 3, &grid);
    assert_eq!(verts.len(), 0);
    assert_eq!(inds.len(), 0);
}

#[test]
fn zero_is_treated_as_outside() {
    // A field that is exactly zero everywhere counts as outside: no mesh.
    let grid = sample_grid((2, 2, 2), (0.0, 0.0, 0.0), (1.0, 1.0, 1.0), &|_, _, _| 0.0);
    let (verts, inds) = mesh_builder(2, 2, 2, &grid);
    assert_eq!(verts.len(), 0);
    assert_eq!(inds.len(), 0);
}

#[test]
fn extraction_is_deterministic() {
    let dims = (7, 5, 6);
    let field = |x: f32, y: f32, z: f32| (x * x + 2.0 * y * y + z * z).sqrt() - 0.7;
    let grid = sample_grid(dims, (0.0, 0.0, 0.0), (1.0, 1.0, 1.0), &field);
    let (v1, i1) = mesh_builder(dims.0, dims.1, dims.2, &grid);
    let (v2, i2) = mesh_builder(dims.0, dims.1, dims.2, &grid);
    assert_eq!(v1, v2);
    assert_eq!(i1, i2);
}

#[test]
fn translated_field_gives_identical_topology_and_shifted_positions() {
    let n = (8u32, 8, 8);
    let radii = (1.0f32, 1.0, 1.0);
    let shift = (2.0f32, -4.0, 8.0);
    let base = sphere(0.75);
    let moved = move |x: f32, y: f32, z: f32| base(x - shift.0, y - shift.1, z - shift.2);
    let base = sphere(0.75);

    let g1 = sample_grid(n, (0.0, 0.0, 0.0), radii, &base);
    let g2 = sample_grid(n, shift, radii, &moved);
    assert_eq!(g1, g2);

    let (v1, i1) = mesh_builder(n.0, n.1, n.2, &g1);
    let (v2, i2) = mesh_builder(n.0, n.1, n.2, &g2);
    assert_eq!(v1, v2);
    assert_eq!(i1, i2);

    for e in v1.iter() {
        let p1 = vertex_pos(e, n, (0.0, 0.0, 0.0), radii, &base);
        let p2 = vertex_pos(e, n, shift, radii, &moved);
        assert!((p2.0 - p1.0 - shift.0).abs() < 1e-5);
        assert!((p2.1 - p1.1 - shift.1).abs() < 1e-5);
        assert!((p2.2 - p1.2 - shift.2).abs() < 1e-5);
    }
}

#[test]
fn single_interior_point_makes_a_closed_diamond() {
    // A field negative only strictly inside the unit cube around the
    // offset, sampled at resolution 2 with radii 1: only the central
    // lattice point is inside. Every one of the eight voxels contributes
    // one triangle, and the vertices sit on the six lattice edges around
    // the centre.
    let field = |x: f32, y: f32, z: f32| x.abs().max(y.abs()).max(z.abs()) - 0.5;
    let grid = sample_grid((2, 2, 2), (0.0, 0.0, 0.0), (1.0, 1.0, 1.0), &field);
    let (verts, inds) = mesh_builder(2, 2, 2, &grid);
    assert_eq!(verts.len(), 6);
    assert_eq!(inds.len(), 24);
    check_mesh_basics(&verts, &inds, 8);
    check_closed_sphere(&verts, &inds);
    let got: HashSet<EdgeId> = verts.iter().cloned().collect();
    let expected: HashSet<EdgeId> = [
        EdgeId { axis: Axis::X, x: 0, y: 1, z: 1 },
        EdgeId { axis: Axis::X, x: 1, y: 1, z: 1 },
        EdgeId { axis: Axis::Y, x: 1, y: 0, z: 1 },
        EdgeId { axis: Axis::Y, x: 1, y: 1, z: 1 },
        EdgeId { axis: Axis::Z, x: 1, y: 1, z: 0 },
        EdgeId { axis: Axis::Z, x: 1, y: 1, z: 1 },
    ]
    .into_iter()
    .collect();
    assert_eq!(got, expected);
}

#[test]
fn shared_edges_resolve_to_one_vertex_index() {
    // Two voxels side by side, solid below the diagonal-ish plane: the
    // edges on their shared face must come back with the same index from
    // both visits, so the vertex list stays free of duplicates while the
    // index list references vertices repeatedly.
    let field = |x: f32, _y: f32, z: f32| z - 0.1 * x;
    let grid = sample_grid((2, 1, 1), (0.0, 0.0, 0.0), (1.0, 1.0, 1.0), &field);
    let (verts, inds) = mesh_builder(2, 1, 1, &grid);
    check_mesh_basics(&verts, &inds, 2);
    assert!(inds.len() > verts.len());
    let unique: HashSet<u32> = inds.iter().cloned().collect();
    assert_eq!(unique.len(), verts.len());
}
