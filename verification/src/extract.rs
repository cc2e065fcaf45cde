use vstd::prelude::*;
use crate::model::{
    Axis, EdgeId, all_refs, cube_config, dedup_verts, dedup_indices, dims_ok, edge_index_in,
    grid_len, inside_at, lattice_index, lemma_contains_split, lemma_dedup_basic, lemma_dedup_push,
    lemma_dedup_index_at, lemma_index_in, lemma_refs_len, lemma_refs_planes,
    lemma_voxels_before_bound, mesh_verts, mesh_indices, refs_before, spec_edge, voxel_refs,
};
use crate::table;

verus! {

// ---------------------------------------------------------------------------
// Deduplication stores
//
// Edge references are deduplicated through three keyed stores, as dense
// arrays: one for edges lying in the lattice plane closing the current
// voxel layer from below ("done"), one for edges in the plane above it
// ("doing"), and one for the z-aligned edges inside the current layer. A
// plane store slot is addressed by `ky * (2 * nx + 1) + kx`, where `kx`
// packs the base x coordinate and the edge direction (even: along y, odd:
// along x); the z store is addressed by `by * (nx + 1) + bx`.
// ---------------------------------------------------------------------------

/// The lattice edge that slot `(kx, ky)` of a plane store for lattice
/// plane `z` stands for.
pub open spec fn xy_edge_at(kx: int, ky: int, z: int) -> EdgeId {
    if kx % 2 == 0 {
        EdgeId { axis: Axis::Y, x: (kx / 2) as u32, y: ky as u32, z: z as u32 }
    } else {
        EdgeId { axis: Axis::X, x: ((kx - 1) / 2) as u32, y: ky as u32, z: z as u32 }
    }
}

/// The lattice edge that slot `(bx, by)` of the z store for voxel layer
/// `z` stands for.
pub open spec fn z_edge_at(bx: int, by: int, z: int) -> EdgeId {
    EdgeId { axis: Axis::Z, x: bx as u32, y: by as u32, z: z as u32 }
}

/// What one store slot says: an occupied slot holds the position that its
/// edge already has in the vertex list `d`; an empty slot promises that the
/// references `r` made so far never named its edge.
pub open spec fn slot_ok(o: Option<u32>, e: EdgeId, r: Seq<EdgeId>, d: Seq<EdgeId>) -> bool {
    match o {
        Some(i) => r.contains(e) && (i as int) < d.len() && d[i as int] == e,
        None => !r.contains(e),
    }
}

/// Every slot of a plane store for lattice plane `z` is truthful.
pub open spec fn xy_map_ok(
    m: Seq<Option<u32>>,
    nx: int,
    ny: int,
    z: int,
    r: Seq<EdgeId>,
    d: Seq<EdgeId>,
) -> bool {
    &&& m.len() == (2 * nx + 1) * (ny + 1)
    &&& forall|kx: int, ky: int|
        0 <= kx < 2 * nx + 1 && 0 <= ky < ny + 1 ==> slot_ok(
            m[ky * (2 * nx + 1) + kx],
            #[trigger] xy_edge_at(kx, ky, z),
            r,
            d,
        )
}

/// Every slot of the z store for voxel layer `z` is truthful.
pub open spec fn z_map_ok(
    m: Seq<Option<u32>>,
    nx: int,
    ny: int,
    z: int,
    r: Seq<EdgeId>,
    d: Seq<EdgeId>,
) -> bool {
    &&& m.len() == (nx + 1) * (ny + 1)
    &&& forall|bx: int, by: int|
        0 <= bx < nx + 1 && 0 <= by < ny + 1 ==> slot_ok(
            m[by * (nx + 1) + bx],
            #[trigger] z_edge_at(bx, by, z),
            r,
            d,
        )
}

/// The whole extraction state after the references `r`, while the voxel
/// layer `zi` is being traversed.
pub open spec fn state_ok(
    nx: int,
    ny: int,
    zi: int,
    r: Seq<EdgeId>,
    verts: Seq<EdgeId>,
    inds: Seq<u32>,
    done: Seq<Option<u32>>,
    doing: Seq<Option<u32>>,
    zm: Seq<Option<u32>>,
) -> bool {
    &&& verts == dedup_verts(r)
    &&& inds.map_values(|v: u32| v as int) == dedup_indices(r)
    &&& xy_map_ok(done, nx, ny, zi, r, verts)
    &&& xy_map_ok(doing, nx, ny, zi + 1, r, verts)
    &&& z_map_ok(zm, nx, ny, zi, r, verts)
}

// ---------------------------------------------------------------------------
// Arithmetic helpers
// ---------------------------------------------------------------------------

/// Comfortable bounds for every coordinate and store size, from the cap on
/// the lattice point count.
pub proof fn lemma_dims(nx: int, ny: int, nz: int)
    requires
        dims_ok(nx, ny, nz),
    ensures
        nx + 1 <= 0x40_0000,
        ny + 1 <= 0x40_0000,
        nz + 1 <= 0x40_0000,
        (2 * nx + 1) * (ny + 1) <= 0x100_0000,
        (nx + 1) * (ny + 1) <= 0x100_0000,
        (ny + 1) * (nz + 1) <= 0x100_0000,
        nx * ny * nz <= 0x100_0000,
{
    assert(nx + 1 <= 0x40_0000 && ny + 1 <= 0x40_0000 && nz + 1 <= 0x40_0000 && (2 * nx + 1) * (ny
        + 1) <= 0x100_0000 && (nx + 1) * (ny + 1) <= 0x100_0000 && (ny + 1) * (nz + 1)
        <= 0x100_0000 && nx * ny * nz <= 0x100_0000)
        by (nonlinear_arith)
        requires
            1 <= nx,
            1 <= ny,
            1 <= nz,
            (nx + 1) * (ny + 1) * (nz + 1) <= 0x100_0000,
    ;
}

/// A flat slot index determines its two coordinates.
proof fn lemma_flat_inj(w: int, kx1: int, ky1: int, kx2: int, ky2: int)
    requires
        0 <= kx1 < w,
        0 <= kx2 < w,
        0 <= ky1,
        0 <= ky2,
        ky1 * w + kx1 == ky2 * w + kx2,
    ensures
        kx1 == kx2,
        ky1 == ky2,
{
    assert(kx1 == kx2 && ky1 == ky2) by (nonlinear_arith)
        requires
            0 <= kx1 < w,
            0 <= kx2 < w,
            0 <= ky1,
            0 <= ky2,
            ky1 * w + kx1 == ky2 * w + kx2,
    ;
}

/// A flat slot index lies inside its store.
proof fn lemma_flat_bound(w: int, h: int, kx: int, ky: int)
    requires
        0 <= kx < w,
        0 <= ky < h,
    ensures
        0 <= ky * w + kx < w * h,
{
    assert(0 <= ky * w + kx < w * h) by (nonlinear_arith)
        requires
            0 <= kx < w,
            0 <= ky < h,
    ;
}

/// A lattice point index lies inside the grid.
proof fn lemma_lattice_bound(nx: int, ny: int, nz: int, x: int, y: int, z: int)
    requires
        0 <= x <= nx,
        0 <= y <= ny,
        0 <= z <= nz,
        0 <= nx,
        0 <= ny,
        0 <= nz,
    ensures
        0 <= z * (ny + 1) + y < (ny + 1) * (nz + 1),
        0 <= lattice_index(nx, ny, x, y, z) < grid_len(nx, ny, nz),
{
    assert(0 <= z * (ny + 1) + y < (ny + 1) * (nz + 1) && 0 <= (z * (ny + 1) + y) * (nx + 1) + x < (
    nx + 1) * (ny + 1) * (nz + 1)) by (nonlinear_arith)
        requires
            0 <= x <= nx,
            0 <= y <= ny,
            0 <= z <= nz,
            0 <= nx,
            0 <= ny,
            0 <= nz,
    ;
}

// ---------------------------------------------------------------------------
// Decode injectivity and preservation of the stores
// ---------------------------------------------------------------------------

/// Pushing a reference adds exactly that edge to what the sequence
/// contains.
pub proof fn lemma_contains_push(s: Seq<EdgeId>, e: EdgeId, x: EdgeId)
    ensures
        s.push(e).contains(x) <==> (s.contains(x) || x == e),
{
    assert(s.push(e).drop_last() =~= s);
    lemma_contains_split(s.push(e), x);
}

/// Two plane-store slots never stand for the same lattice edge.
proof fn lemma_xy_decode_inj(kx1: int, ky1: int, kx2: int, ky2: int, z: int)
    requires
        0 <= kx1 < 0x80_0000,
        0 <= kx2 < 0x80_0000,
        0 <= ky1 < 0x40_0000,
        0 <= ky2 < 0x40_0000,
        0 <= z < 0x40_0000,
        xy_edge_at(kx1, ky1, z) == xy_edge_at(kx2, ky2, z),
    ensures
        kx1 == kx2,
        ky1 == ky2,
{
    if kx1 % 2 == 0 && kx2 % 2 == 0 {
        assert(kx1 == 2 * (kx1 / 2) && kx2 == 2 * (kx2 / 2));
    } else if kx1 % 2 == 1 && kx2 % 2 == 1 {
        assert(kx1 == 2 * ((kx1 - 1) / 2) + 1 && kx2 == 2 * ((kx2 - 1) / 2) + 1);
    }
}

/// A plane store stays truthful when a reference to an edge it does not
/// hold is pushed, whether or not that edge entered the vertex list.
proof fn lemma_xy_untouched(
    m: Seq<Option<u32>>,
    nx: int,
    ny: int,
    z: int,
    r: Seq<EdgeId>,
    d: Seq<EdgeId>,
    d2: Seq<EdgeId>,
    edge: EdgeId,
)
    requires
        xy_map_ok(m, nx, ny, z, r, d),
        d2 == d || d2 == d.push(edge),
        forall|kx: int, ky: int|
            0 <= kx < 2 * nx + 1 && 0 <= ky < ny + 1 ==> #[trigger] xy_edge_at(kx, ky, z) != edge,
    ensures
        xy_map_ok(m, nx, ny, z, r.push(edge), d2),
{
    assert forall|kx: int, ky: int| 0 <= kx < 2 * nx + 1 && 0 <= ky < ny + 1 implies slot_ok(
        m[ky * (2 * nx + 1) + kx],
        #[trigger] xy_edge_at(kx, ky, z),
        r.push(edge),
        d2,
    ) by {
        let e = xy_edge_at(kx, ky, z);
        lemma_contains_push(r, edge, e);
        assert(slot_ok(m[ky * (2 * nx + 1) + kx], e, r, d));
    }
}

/// The z store stays truthful in the same situation.
proof fn lemma_z_untouched(
    m: Seq<Option<u32>>,
    nx: int,
    ny: int,
    z: int,
    r: Seq<EdgeId>,
    d: Seq<EdgeId>,
    d2: Seq<EdgeId>,
    edge: EdgeId,
)
    requires
        z_map_ok(m, nx, ny, z, r, d),
        d2 == d || d2 == d.push(edge),
        forall|bx: int, by: int|
            0 <= bx < nx + 1 && 0 <= by < ny + 1 ==> #[trigger] z_edge_at(bx, by, z) != edge,
    ensures
        z_map_ok(m, nx, ny, z, r.push(edge), d2),
{
    assert forall|bx: int, by: int| 0 <= bx < nx + 1 && 0 <= by < ny + 1 implies slot_ok(
        m[by * (nx + 1) + bx],
        #[trigger] z_edge_at(bx, by, z),
        r.push(edge),
        d2,
    ) by {
        let e = z_edge_at(bx, by, z);
        lemma_contains_push(r, edge, e);
        assert(slot_ok(m[by * (nx + 1) + bx], e, r, d));
    }
}

/// A plane store stays truthful when the slot of the pushed edge itself is
/// filled with that edge's vertex position.
proof fn lemma_xy_touched(
    m1: Seq<Option<u32>>,
    m2: Seq<Option<u32>>,
    nx: int,
    ny: int,
    z: int,
    r: Seq<EdgeId>,
    d: Seq<EdgeId>,
    d2: Seq<EdgeId>,
    edge: EdgeId,
    kx0: int,
    ky0: int,
    i0: u32,
)
    requires
        xy_map_ok(m1, nx, ny, z, r, d),
        d2 == d || d2 == d.push(edge),
        0 <= kx0 < 2 * nx + 1,
        0 <= ky0 < ny + 1,
        nx < 0x40_0000,
        ny < 0x40_0000,
        0 <= z < 0x40_0000,
        edge == xy_edge_at(kx0, ky0, z),
        m2 == m1.update(ky0 * (2 * nx + 1) + kx0, Some(i0)),
        slot_ok(Some(i0), edge, r.push(edge), d2),
    ensures
        xy_map_ok(m2, nx, ny, z, r.push(edge), d2),
{
    lemma_flat_bound(2 * nx + 1, ny + 1, kx0, ky0);
    assert forall|kx: int, ky: int| 0 <= kx < 2 * nx + 1 && 0 <= ky < ny + 1 implies slot_ok(
        m2[ky * (2 * nx + 1) + kx],
        #[trigger] xy_edge_at(kx, ky, z),
        r.push(edge),
        d2,
    ) by {
        let e = xy_edge_at(kx, ky, z);
        if kx == kx0 && ky == ky0 {
        } else {
            lemma_flat_bound(2 * nx + 1, ny + 1, kx, ky);
            assert(ky * (2 * nx + 1) + kx != ky0 * (2 * nx + 1) + kx0) by {
                if ky * (2 * nx + 1) + kx == ky0 * (2 * nx + 1) + kx0 {
                    lemma_flat_inj(2 * nx + 1, kx, ky, kx0, ky0);
                }
            }
            assert(m2[ky * (2 * nx + 1) + kx] == m1[ky * (2 * nx + 1) + kx]);
            if e == edge {
                lemma_xy_decode_inj(kx, ky, kx0, ky0, z);
            }
            lemma_contains_push(r, edge, e);
            assert(slot_ok(m1[ky * (2 * nx + 1) + kx], e, r, d));
        }
    }
}

/// The z store stays truthful in the same situation.
proof fn lemma_z_touched(
    m1: Seq<Option<u32>>,
    m2: Seq<Option<u32>>,
    nx: int,
    ny: int,
    z: int,
    r: Seq<EdgeId>,
    d: Seq<EdgeId>,
    d2: Seq<EdgeId>,
    edge: EdgeId,
    bx0: int,
    by0: int,
    i0: u32,
)
    requires
        z_map_ok(m1, nx, ny, z, r, d),
        d2 == d || d2 == d.push(edge),
        0 <= bx0 < nx + 1,
        0 <= by0 < ny + 1,
        nx < 0x40_0000,
        ny < 0x40_0000,
        0 <= z < 0x40_0000,
        edge == z_edge_at(bx0, by0, z),
        m2 == m1.update(by0 * (nx + 1) + bx0, Some(i0)),
        slot_ok(Some(i0), edge, r.push(edge), d2),
    ensures
        z_map_ok(m2, nx, ny, z, r.push(edge), d2),
{
    lemma_flat_bound(nx + 1, ny + 1, bx0, by0);
    assert forall|bx: int, by: int| 0 <= bx < nx + 1 && 0 <= by < ny + 1 implies slot_ok(
        m2[by * (nx + 1) + bx],
        #[trigger] z_edge_at(bx, by, z),
        r.push(edge),
        d2,
    ) by {
        let e = z_edge_at(bx, by, z);
        if bx == bx0 && by == by0 {
        } else {
            lemma_flat_bound(nx + 1, ny + 1, bx, by);
            assert(by * (nx + 1) + bx != by0 * (nx + 1) + bx0) by {
                if by * (nx + 1) + bx == by0 * (nx + 1) + bx0 {
                    lemma_flat_inj(nx + 1, bx, by, bx0, by0);
                }
            }
            assert(m2[by * (nx + 1) + bx] == m1[by * (nx + 1) + bx]);
            lemma_contains_push(r, edge, e);
            assert(slot_ok(m1[by * (nx + 1) + bx], e, r, d));
        }
    }
}

// ---------------------------------------------------------------------------
// Executable helpers
// ---------------------------------------------------------------------------

/// A store of `n` empty slots.
fn none_vec(n: usize) -> (v: Vec<Option<u32>>)
    ensures
        v@.len() == n as int,
        forall|i: int| 0 <= i < n as int ==> v@[i] is None,
{
    let mut v: Vec<Option<u32>> = Vec::new();
    let mut i: usize = 0;
    while i < n
        invariant
            i <= n,
            v@.len() == i as int,
            forall|k: int| 0 <= k < i as int ==> v@[k] is None,
        decreases n - i,
    {
        v.push(None);
        i = i + 1;
    }
    v
}

/// Read the inside bit of lattice point `(x, y, z)`.
fn lattice_at(inside: &Vec<bool>, nx: u32, ny: u32, x: u32, y: u32, z: u32, Ghost(nz): Ghost<int>)
    -> (b: bool)
    requires
        dims_ok(nx as int, ny as int, nz),
        inside@.len() == grid_len(nx as int, ny as int, nz),
        x <= nx,
        y <= ny,
        z as int <= nz,
    ensures
        b == inside_at(inside@, nx as int, ny as int, x as int, y as int, z as int),
{
    proof {
        lemma_lattice_bound(nx as int, ny as int, nz, x as int, y as int, z as int);
        lemma_dims(nx as int, ny as int, nz);
    }
    let row: usize = (z as usize) * ((ny as usize) + 1) + (y as usize);
    let idx: usize = row * ((nx as usize) + 1) + (x as usize);
    inside[idx]
}

/// Record one reference to `edge`, whose store slot is `slot`: reuse the
/// vertex position a filled slot holds, or emit a new vertex and fill the
/// slot. Returns the vertex position that the reference resolved to.
fn touch(
    map: &mut Vec<Option<u32>>,
    slot: usize,
    edge: EdgeId,
    verts: &mut Vec<EdgeId>,
    inds: &mut Vec<u32>,
    Ghost(r): Ghost<Seq<EdgeId>>,
) -> (idx: u32)
    requires
        slot < old(map)@.len(),
        slot_ok(old(map)@[slot as int], edge, r, old(verts)@),
        old(verts)@ == dedup_verts(r),
        old(inds)@.map_values(|v: u32| v as int) == dedup_indices(r),
        r.len() < 0x2000_0000,
    ensures
        final(verts)@ == dedup_verts(r.push(edge)),
        final(inds)@.map_values(|v: u32| v as int) == dedup_indices(r.push(edge)),
        final(map)@ == old(map)@.update(slot as int, Some(idx)),
        slot_ok(Some(idx), edge, r.push(edge), final(verts)@),
{
    proof {
        lemma_dedup_basic(r);
        lemma_dedup_push(r, edge);
        assert(r.push(edge)[r.len() as int] == edge);
        assert(r.push(edge).contains(edge));
    }
    let cur = map[slot];
    match cur {
        Some(i) => {
            proof {
                lemma_index_in(dedup_verts(r), edge);
                assert(i == edge_index_in(dedup_verts(r), edge));
                assert(old(map)@.update(slot as int, Some(i)) =~= old(map)@);
            }
            inds.push(i);
            proof {
                assert(inds@.map_values(|v: u32| v as int) =~= dedup_indices(r).push(
                    i as int,
                ));
            }
            i
        },
        None => {
            let idx = verts.len() as u32;
            verts.push(edge);
            map[slot] = Some(idx);
            inds.push(idx);
            proof {
                assert(verts@[idx as int] == edge);
                assert(inds@.map_values(|v: u32| v as int) =~= dedup_indices(r).push(
                    idx as int,
                ));
            }
            idx
        },
    }
}

/// Record one reference that edge number `e` of the voxel at
/// `(xi, yi, zi)` makes, keeping every deduplication store truthful.
fn process_edge(
    nx: u32,
    ny: u32,
    xi: u32,
    yi: u32,
    zi: u32,
    e: u64,
    verts: &mut Vec<EdgeId>,
    inds: &mut Vec<u32>,
    done: &mut Vec<Option<u32>>,
    doing: &mut Vec<Option<u32>>,
    zm: &mut Vec<Option<u32>>,
    Ghost(nz): Ghost<int>,
    Ghost(r): Ghost<Seq<EdgeId>>,
)
    requires
        dims_ok(nx as int, ny as int, nz),
        xi < nx,
        yi < ny,
        (zi as int) < nz,
        e < 12,
        state_ok(
            nx as int,
            ny as int,
            zi as int,
            r,
            old(verts)@,
            old(inds)@,
            old(done)@,
            old(doing)@,
            old(zm)@,
        ),
        r.len() < 0x2000_0000,
    ensures
        state_ok(
            nx as int,
            ny as int,
            zi as int,
            r.push(spec_edge(xi as int, yi as int, zi as int, e as int)),
            final(verts)@,
            final(inds)@,
            final(done)@,
            final(doing)@,
            final(zm)@,
        ),
{
    let ghost gx = nx as int;
    let ghost gy = ny as int;
    let ghost gzi = zi as int;
    proof {
        lemma_dims(gx, gy, nz);
        lemma_dedup_basic(r);
    }
    if e == 1 || e == 3 || e == 5 || e == 7 {
        let bx: u32 = if e == 1 || e == 5 {
            xi + 1
        } else {
            xi
        };
        let by: u32 = if e == 1 || e == 3 {
            yi + 1
        } else {
            yi
        };
        let edge = EdgeId { axis: Axis::Z, x: bx, y: by, z: zi };
        proof {
            assert(edge == spec_edge(xi as int, yi as int, gzi, e as int));
            assert(edge == z_edge_at(bx as int, by as int, gzi));
            lemma_flat_bound(gx + 1, gy + 1, bx as int, by as int);
            assert(slot_ok(
                old(zm)@[(by as int) * (gx + 1) + (bx as int)],
                z_edge_at(bx as int, by as int, gzi),
                r,
                old(verts)@,
            ));
        }
        let slot: usize = (by as usize) * ((nx as usize) + 1) + (bx as usize);
        let idx = touch(zm, slot, edge, verts, inds, Ghost(r));
        proof {
            lemma_dedup_push(r, edge);
            lemma_z_touched(
                old(zm)@,
                zm@,
                gx,
                gy,
                gzi,
                r,
                old(verts)@,
                verts@,
                edge,
                bx as int,
                by as int,
                idx,
            );
            assert forall|kx: int, ky: int| 0 <= kx < 2 * gx + 1 && 0 <= ky < gy + 1
                implies #[trigger] xy_edge_at(kx, ky, gzi) != edge by {
                if kx % 2 == 0 {
                    assert(xy_edge_at(kx, ky, gzi).axis == Axis::Y);
                } else {
                    assert(xy_edge_at(kx, ky, gzi).axis == Axis::X);
                }
            }
            lemma_xy_untouched(done@, gx, gy, gzi, r, old(verts)@, verts@, edge);
            assert forall|kx: int, ky: int| 0 <= kx < 2 * gx + 1 && 0 <= ky < gy + 1
                implies #[trigger] xy_edge_at(kx, ky, gzi + 1) != edge by {
                if kx % 2 == 0 {
                    assert(xy_edge_at(kx, ky, gzi + 1).axis == Axis::Y);
                } else {
                    assert(xy_edge_at(kx, ky, gzi + 1).axis == Axis::X);
                }
            }
            lemma_xy_untouched(doing@, gx, gy, gzi + 1, r, old(verts)@, verts@, edge);
        }
    } else {
        let y_axis: bool = e == 8 || e == 9 || e == 10 || e == 11;
        let to_doing: bool = e == 0 || e == 4 || e == 8 || e == 9;
        let bx: u32 = if e == 9 || e == 10 {
            xi + 1
        } else {
            xi
        };
        let by: u32 = if e == 0 || e == 2 {
            yi + 1
        } else {
            yi
        };
        let kx: u32 = if y_axis {
            2 * bx
        } else {
            2 * bx + 1
        };
        let bz: u32 = if to_doing {
            zi + 1
        } else {
            zi
        };
        let axis = if y_axis {
            Axis::Y
        } else {
            Axis::X
        };
        let edge = EdgeId { axis, x: bx, y: by, z: bz };
        let ghost plane = bz as int;
        proof {
            assert(edge == spec_edge(xi as int, yi as int, gzi, e as int));
            if y_axis {
                assert((2 * (bx as int)) % 2 == 0);
                assert((2 * (bx as int)) / 2 == bx as int);
            } else {
                assert((2 * (bx as int) + 1) % 2 == 1);
                assert((2 * (bx as int) + 1 - 1) / 2 == bx as int);
            }
            assert(edge == xy_edge_at(kx as int, by as int, plane));
            lemma_flat_bound(2 * gx + 1, gy + 1, kx as int, by as int);
        }
        let slot: usize = (by as usize) * (2 * (nx as usize) + 1) + (kx as usize);
        if to_doing {
            proof {
                assert(slot_ok(
                    old(doing)@[(by as int) * (2 * gx + 1) + (kx as int)],
                    xy_edge_at(kx as int, by as int, plane),
                    r,
                    old(verts)@,
                ));
            }
            let idx = touch(doing, slot, edge, verts, inds, Ghost(r));
            proof {
                lemma_dedup_push(r, edge);
                lemma_xy_touched(
                    old(doing)@,
                    doing@,
                    gx,
                    gy,
                    gzi + 1,
                    r,
                    old(verts)@,
                    verts@,
                    edge,
                    kx as int,
                    by as int,
                    idx,
                );
                assert forall|kx2: int, ky2: int| 0 <= kx2 < 2 * gx + 1 && 0 <= ky2 < gy + 1
                    implies #[trigger] xy_edge_at(kx2, ky2, gzi) != edge by {
                    assert(xy_edge_at(kx2, ky2, gzi).z == zi as u32);
                }
                lemma_xy_untouched(done@, gx, gy, gzi, r, old(verts)@, verts@, edge);
                assert forall|bx2: int, by2: int| 0 <= bx2 < gx + 1 && 0 <= by2 < gy + 1
                    implies #[trigger] z_edge_at(bx2, by2, gzi) != edge by {
                    assert(z_edge_at(bx2, by2, gzi).axis == Axis::Z);
                }
                lemma_z_untouched(zm@, gx, gy, gzi, r, old(verts)@, verts@, edge);
            }
        } else {
            proof {
                assert(slot_ok(
                    old(done)@[(by as int) * (2 * gx + 1) + (kx as int)],
                    xy_edge_at(kx as int, by as int, plane),
                    r,
                    old(verts)@,
                ));
            }
            let idx = touch(done, slot, edge, verts, inds, Ghost(r));
            proof {
                lemma_dedup_push(r, edge);
                lemma_xy_touched(
                    old(done)@,
                    done@,
                    gx,
                    gy,
                    gzi,
                    r,
                    old(verts)@,
                    verts@,
                    edge,
                    kx as int,
                    by as int,
                    idx,
                );
                assert forall|kx2: int, ky2: int| 0 <= kx2 < 2 * gx + 1 && 0 <= ky2 < gy + 1
                    implies #[trigger] xy_edge_at(kx2, ky2, gzi + 1) != edge by {
                    assert(xy_edge_at(kx2, ky2, gzi + 1).z == (gzi + 1) as u32);
                }
                lemma_xy_untouched(doing@, gx, gy, gzi + 1, r, old(verts)@, verts@, edge);
                assert forall|bx2: int, by2: int| 0 <= bx2 < gx + 1 && 0 <= by2 < gy + 1
                    implies #[trigger] z_edge_at(bx2, by2, gzi) != edge by {
                    assert(z_edge_at(bx2, by2, gzi).axis == Axis::Z);
                }
                lemma_z_untouched(zm@, gx, gy, gzi, r, old(verts)@, verts@, edge);
            }
        }
    }
}

/// Extract the iso-surface topology of a sampled voxel grid.
///
/// The grid has `nx * ny * nz` voxels; `inside` holds one bit per lattice
/// point, at position `lattice_index`, saying whether the sampled field is
/// negative there (inside the solid; a value of exactly zero counts as
/// outside). The result is the deduplicated vertex list — each vertex named
/// by the lattice edge it lies on, in order of first reference — and the
/// index list, three consecutive entries per triangle, exactly as the
/// first-occurrence deduplication of the traversal's reference sequence
/// prescribes.
#[verifier::rlimit(100)]
pub fn mesh_builder(nx: u32, ny: u32, nz: u32, inside: &Vec<bool>) -> (out: (
    Vec<EdgeId>,
    Vec<u32>,
))
    requires
        dims_ok(nx as int, ny as int, nz as int),
        inside@.len() == grid_len(nx as int, ny as int, nz as int),
    ensures
        out.0@ == mesh_verts(inside@, nx as int, ny as int, nz as int),
        out.1@.map_values(|v: u32| v as int) == mesh_indices(
            inside@,
            nx as int,
            ny as int,
            nz as int,
        ),
        out.0@.no_duplicates(),
        out.0@.len() <= 12 * ((nx as int) * (ny as int) * (nz as int)),
        out.1@.len() % 3 == 0,
        forall|k: int| 0 <= k < out.1@.len() ==> (out.1@[k] as int) < out.0@.len(),
{
    let ghost g = inside@;
    let ghost gx = nx as int;
    let ghost gy = ny as int;
    let ghost gz = nz as int;
    proof {
        lemma_dims(gx, gy, gz);
    }
    let wxy: usize = (2 * (nx as usize) + 1) * ((ny as usize) + 1);
    let wz: usize = ((nx as usize) + 1) * ((ny as usize) + 1);
    let mut done = none_vec(wxy);
    let mut doing = none_vec(wxy);
    let mut zm = none_vec(wz);
    let mut verts: Vec<EdgeId> = Vec::new();
    let mut inds: Vec<u32> = Vec::new();
    proof {
        let r0 = refs_before(g, gx, gy, 0, 0, 0);
        assert(r0 =~= Seq::<EdgeId>::empty());
        assert(verts@ == dedup_verts(r0));
        assert(inds@.map_values(|v: u32| v as int) =~= dedup_indices(r0));
        assert forall|kx: int, ky: int| 0 <= kx < 2 * gx + 1 && 0 <= ky < gy + 1 implies slot_ok(
            done@[ky * (2 * gx + 1) + kx],
            #[trigger] xy_edge_at(kx, ky, 0),
            r0,
            verts@,
        ) by {
            lemma_flat_bound(2 * gx + 1, gy + 1, kx, ky);
            if r0.contains(xy_edge_at(kx, ky, 0)) {
                let k = choose|k: int| 0 <= k < r0.len() && r0[k] == xy_edge_at(kx, ky, 0);
            }
        }
        assert forall|kx: int, ky: int| 0 <= kx < 2 * gx + 1 && 0 <= ky < gy + 1 implies slot_ok(
            doing@[ky * (2 * gx + 1) + kx],
            #[trigger] xy_edge_at(kx, ky, 1),
            r0,
            verts@,
        ) by {
            lemma_flat_bound(2 * gx + 1, gy + 1, kx, ky);
            if r0.contains(xy_edge_at(kx, ky, 1)) {
                let k = choose|k: int| 0 <= k < r0.len() && r0[k] == xy_edge_at(kx, ky, 1);
            }
        }
        assert forall|bx: int, by: int| 0 <= bx < gx + 1 && 0 <= by < gy + 1 implies slot_ok(
            zm@[by * (gx + 1) + bx],
            #[trigger] z_edge_at(bx, by, 0),
            r0,
            verts@,
        ) by {
            lemma_flat_bound(gx + 1, gy + 1, bx, by);
            if r0.contains(z_edge_at(bx, by, 0)) {
                let k = choose|k: int| 0 <= k < r0.len() && r0[k] == z_edge_at(bx, by, 0);
            }
        }
    }
    let mut zi: u32 = 0;
    while zi < nz
        invariant
            gx == nx as int,
            gy == ny as int,
            gz == nz as int,
            dims_ok(gx, gy, gz),
            inside@ == g,
            g.len() == grid_len(gx, gy, gz),
            wxy as int == (2 * gx + 1) * (gy + 1),
            wz as int == (gx + 1) * (gy + 1),
            zi <= nz,
            state_ok(
                gx,
                gy,
                zi as int,
                refs_before(g, gx, gy, zi as int, 0, 0),
                verts@,
                inds@,
                done@,
                doing@,
                zm@,
            ),
        decreases nz - zi,
    {
        let mut yi: u32 = 0;
        while yi < ny
            invariant
                gx == nx as int,
                gy == ny as int,
                gz == nz as int,
                dims_ok(gx, gy, gz),
                inside@ == g,
                g.len() == grid_len(gx, gy, gz),
                zi < nz,
                yi <= ny,
                state_ok(
                    gx,
                    gy,
                    zi as int,
                    refs_before(g, gx, gy, zi as int, yi as int, 0),
                    verts@,
                    inds@,
                    done@,
                    doing@,
                    zm@,
                ),
            decreases ny - yi,
        {
            let mut xi: u32 = 0;
            while xi < nx
                invariant
                    gx == nx as int,
                    gy == ny as int,
                    gz == nz as int,
                    dims_ok(gx, gy, gz),
                    inside@ == g,
                    g.len() == grid_len(gx, gy, gz),
                    zi < nz,
                    yi < ny,
                    xi <= nx,
                    state_ok(
                        gx,
                        gy,
                        zi as int,
                        refs_before(g, gx, gy, zi as int, yi as int, xi as int),
                        verts@,
                        inds@,
                        done@,
                        doing@,
                        zm@,
                    ),
                decreases nx - xi,
            {
                proof {
                    lemma_dims(gx, gy, gz);
                }
                let c0 = lattice_at(inside, nx, ny, xi, yi + 1, zi + 1, Ghost(gz));
                let c1 = lattice_at(inside, nx, ny, xi + 1, yi + 1, zi + 1, Ghost(gz));
                let c2 = lattice_at(inside, nx, ny, xi + 1, yi + 1, zi, Ghost(gz));
                let c3 = lattice_at(inside, nx, ny, xi, yi + 1, zi, Ghost(gz));
                let c4 = lattice_at(inside, nx, ny, xi, yi, zi + 1, Ghost(gz));
                let c5 = lattice_at(inside, nx, ny, xi + 1, yi, zi + 1, Ghost(gz));
                let c6 = lattice_at(inside, nx, ny, xi + 1, yi, zi, Ghost(gz));
                let c7 = lattice_at(inside, nx, ny, xi, yi, zi, Ghost(gz));
                let code: usize = (if c0 {
                    0
                } else {
                    1
                }) + 2 * (if c1 {
                    0
                } else {
                    1
                }) + 4 * (if c2 {
                    0
                } else {
                    1
                }) + 8 * (if c3 {
                    0
                } else {
                    1
                }) + 16 * (if c4 {
                    0
                } else {
                    1
                }) + 32 * (if c5 {
                    0
                } else {
                    1
                }) + 64 * (if c6 {
                    0
                } else {
                    1
                }) + 128 * (if c7 {
                    0
                } else {
                    1
                });
                let ghost gcode = cube_config(g, gx, gy, xi as int, yi as int, zi as int);
                let ghost vr = voxel_refs(g, gx, gy, xi as int, yi as int, zi as int);
                let ghost base = refs_before(g, gx, gy, zi as int, yi as int, xi as int);
                proof {
                    assert(code as int == gcode);
                    table::lemma_row_len_bounds(gcode);
                    lemma_refs_len(g, gx, gy, zi as int, yi as int, xi as int);
                    lemma_voxels_before_bound(gx, gy, gz, zi as int, yi as int, xi as int);
                    assert(base.len() <= 0x1000_0000);
                    assert(base + vr.take(0) =~= base);
                }
                let row: u64 = table::TRI_ROWS[code];
                let mut j: usize = 0;
                while j + 3 <= 16
                    invariant
                        gx == nx as int,
                        gy == ny as int,
                        gz == nz as int,
                        dims_ok(gx, gy, gz),
                        inside@ == g,
                        g.len() == grid_len(gx, gy, gz),
                        zi < nz,
                        yi < ny,
                        xi < nx,
                        j <= 15,
                        gcode == cube_config(g, gx, gy, xi as int, yi as int, zi as int),
                        0 <= gcode < 256,
                        row == table::TRI_ROWS[gcode],
                        vr == voxel_refs(g, gx, gy, xi as int, yi as int, zi as int),
                        base == refs_before(g, gx, gy, zi as int, yi as int, xi as int),
                        base.len() <= 0x1000_0000,
                        0 <= j as int <= table::row_len(gcode),
                        3 * table::triples_from(gcode, j as int) == table::row_len(gcode)
                            - j as int,
                        state_ok(
                            gx,
                            gy,
                            zi as int,
                            base + vr.take(j as int),
                            verts@,
                            inds@,
                            done@,
                            doing@,
                            zm@,
                        ),
                    ensures
                        j as int == table::row_len(gcode),
                        state_ok(
                            gx,
                            gy,
                            zi as int,
                            base + vr.take(j as int),
                            verts@,
                            inds@,
                            done@,
                            doing@,
                            zm@,
                        ),
                    decreases 16 - j,
                {
                    let sh: u64 = (4 * j) as u64;
                    let e0: u64 = (row >> sh) & 0xF;
                    let e1: u64 = (row >> (sh + 4)) & 0xF;
                    let e2: u64 = (row >> (sh + 8)) & 0xF;
                    proof {
                        assert(e0 == table::tri_entry(gcode, j as int));
                        assert(e1 == table::tri_entry(gcode, j as int + 1));
                        assert(e2 == table::tri_entry(gcode, j as int + 2));
                    }
                    if e0 >= 12 || e1 >= 12 || e2 >= 12 {
                        proof {
                            assert(!table::triple_ok(gcode, j as int));
                            assert(table::triples_from(gcode, j as int) == 0);
                        }
                        break ;
                    }
                    proof {
                        assert(table::triple_ok(gcode, j as int));
                        table::lemma_row_len_bounds(gcode);
                        assert(table::triples_from(gcode, j as int) == 1 + table::triples_from(
                            gcode,
                            j as int + 3,
                        ));
                        assert(3 * table::triples_from(gcode, j as int + 3) == table::row_len(
                            gcode,
                        ) - (j as int + 3)) by {
                            assert(table::triples_from(gcode, j as int) == 1
                                + table::triples_from(gcode, j as int + 3));
                        }
                        assert(j as int + 3 <= table::row_len(gcode)) by {
                            table::lemma_triples_nonneg(gcode, j as int + 3);
                        }
                        assert(vr[j as int] == spec_edge(
                            xi as int,
                            yi as int,
                            zi as int,
                            e0 as int,
                        ));
                        assert(vr[j as int + 1] == spec_edge(
                            xi as int,
                            yi as int,
                            zi as int,
                            e1 as int,
                        ));
                        assert(vr[j as int + 2] == spec_edge(
                            xi as int,
                            yi as int,
                            zi as int,
                            e2 as int,
                        ));
                        assert(vr.take(j as int + 1) =~= vr.take(j as int).push(vr[j as int]));
                        assert(vr.take(j as int + 2) =~= vr.take(j as int + 1).push(
                            vr[j as int + 1],
                        ));
                        assert(vr.take(j as int + 3) =~= vr.take(j as int + 2).push(
                            vr[j as int + 2],
                        ));
                        assert(base + vr.take(j as int + 1) =~= (base + vr.take(j as int)).push(
                            vr[j as int],
                        ));
                        assert(base + vr.take(j as int + 2) =~= (base + vr.take(
                            j as int + 1,
                        )).push(vr[j as int + 1]));
                        assert(base + vr.take(j as int + 3) =~= (base + vr.take(
                            j as int + 2,
                        )).push(vr[j as int + 2]));
                    }
                    let ghost r0 = base + vr.take(j as int);
                    process_edge(
                        nx,
                        ny,
                        xi,
                        yi,
                        zi,
                        e0,
                        &mut verts,
                        &mut inds,
                        &mut done,
                        &mut doing,
                        &mut zm,
                        Ghost(gz),
                        Ghost(r0),
                    );
                    let ghost r1 = base + vr.take(j as int + 1);
                    process_edge(
                        nx,
                        ny,
                        xi,
                        yi,
                        zi,
                        e1,
                        &mut verts,
                        &mut inds,
                        &mut done,
                        &mut doing,
                        &mut zm,
                        Ghost(gz),
                        Ghost(r1),
                    );
                    let ghost r2 = base + vr.take(j as int + 2);
                    process_edge(
                        nx,
                        ny,
                        xi,
                        yi,
                        zi,
                        e2,
                        &mut verts,
                        &mut inds,
                        &mut done,
                        &mut doing,
                        &mut zm,
                        Ghost(gz),
                        Ghost(r2),
                    );
                    j = j + 3;
                }
                proof {
                    assert(vr.take(j as int) =~= vr);
                    assert(refs_before(g, gx, gy, zi as int, yi as int, xi as int + 1) == base
                        + vr);
                }
                xi = xi + 1;
            }
            proof {
                assert(refs_before(g, gx, gy, zi as int, yi as int + 1, 0) == refs_before(
                    g,
                    gx,
                    gy,
                    zi as int,
                    yi as int,
                    gx,
                ));
            }
            yi = yi + 1;
        }
        proof {
            assert(refs_before(g, gx, gy, zi as int + 1, 0, 0) == refs_before(
                g,
                gx,
                gy,
                zi as int,
                gy,
                0,
            ));
        }
        core::mem::swap(&mut done, &mut doing);
        doing = none_vec(wxy);
        zm = none_vec(wz);
        proof {
            let r2 = refs_before(g, gx, gy, zi as int + 1, 0, 0);
            lemma_dims(gx, gy, gz);
            lemma_refs_planes(g, gx, gy, zi as int + 1, 0, 0);
            assert forall|kx: int, ky: int| 0 <= kx < 2 * gx + 1 && 0 <= ky < gy + 1
                implies slot_ok(
                doing@[ky * (2 * gx + 1) + kx],
                #[trigger] xy_edge_at(kx, ky, zi as int + 2),
                r2,
                verts@,
            ) by {
                lemma_flat_bound(2 * gx + 1, gy + 1, kx, ky);
                let e = xy_edge_at(kx, ky, zi as int + 2);
                if r2.contains(e) {
                    let k = choose|k: int| 0 <= k < r2.len() && r2[k] == e;
                    assert(crate::model::ref_plane_ok(r2[k], zi as int + 1, true));
                    if kx % 2 == 0 {
                        assert(e.axis == Axis::Y);
                    } else {
                        assert(e.axis == Axis::X);
                    }
                    assert((e.z as int) == zi as int + 2);
                    assert(false);
                }
            }
            assert forall|bx: int, by: int| 0 <= bx < gx + 1 && 0 <= by < gy + 1 implies slot_ok(
                zm@[by * (gx + 1) + bx],
                #[trigger] z_edge_at(bx, by, zi as int + 1),
                r2,
                verts@,
            ) by {
                lemma_flat_bound(gx + 1, gy + 1, bx, by);
                let e = z_edge_at(bx, by, zi as int + 1);
                if r2.contains(e) {
                    let k = choose|k: int| 0 <= k < r2.len() && r2[k] == e;
                    assert(crate::model::ref_plane_ok(r2[k], zi as int + 1, true));
                    assert(e.axis == Axis::Z);
                    assert((e.z as int) == zi as int + 1);
                    assert(false);
                }
            }
        }
        zi = zi + 1;
    }
    proof {
        let rall = all_refs(g, gx, gy, gz);
        lemma_dedup_basic(rall);
        lemma_refs_len(g, gx, gy, gz, 0, 0);
        crate::model::lemma_vertex_count_bound(g, gx, gy, gz);
        assert(inds@.map_values(|v: u32| v as int).len() == inds@.len());
        assert forall|k: int| 0 <= k < inds@.len() implies (inds@[k] as int) < verts@.len() by {
            assert(inds@.map_values(|v: u32| v as int)[k] == inds@[k] as int);
            lemma_dedup_index_at(rall, k);
        }
    }
    (verts, inds)
}

} // verus!
