use vstd::prelude::*;
use crate::table;

verus! {

/// Axis of a lattice edge of the voxel grid.
#[derive(Clone, Copy, PartialEq, Eq, Hash, Structural, Debug)]
pub enum Axis {
    X,
    Y,
    Z,
}

/// A lattice edge of the voxel grid: the unit segment from lattice point
/// `(x, y, z)` to the neighbouring lattice point along `axis`. Every mesh
/// vertex that the extraction emits lies on exactly one such edge, so the
/// edge identifies the vertex.
#[derive(Clone, Copy, PartialEq, Eq, Hash, Structural, Debug)]
pub struct EdgeId {
    pub axis: Axis,
    pub x: u32,
    pub y: u32,
    pub z: u32,
}

// ---------------------------------------------------------------------------
// The sampled grid
// ---------------------------------------------------------------------------

/// Flat index of lattice point `(x, y, z)` in a grid with `nx * ny * nz`
/// voxels, hence `nx + 1` lattice points along x, and so on.
pub open spec fn lattice_index(nx: int, ny: int, x: int, y: int, z: int) -> int {
    (z * (ny + 1) + y) * (nx + 1) + x
}

/// Number of lattice points of the grid.
pub open spec fn grid_len(nx: int, ny: int, nz: int) -> int {
    (nx + 1) * (ny + 1) * (nz + 1)
}

/// Whether the sampled field is negative (inside the solid) at lattice
/// point `(x, y, z)`.
pub open spec fn inside_at(g: Seq<bool>, nx: int, ny: int, x: int, y: int, z: int) -> bool {
    g[lattice_index(nx, ny, x, y, z)]
}

/// The bounds that `mesh_builder` asks of its grid dimensions: at least one
/// voxel per axis, and few enough lattice points that every count fits
/// comfortably in 32 bits.
pub open spec fn dims_ok(nx: int, ny: int, nz: int) -> bool {
    1 <= nx && 1 <= ny && 1 <= nz && grid_len(nx, ny, nz) <= 0x100_0000
}

/// Lattice offset of voxel corner `k` along x.
pub open spec fn corner_dx(k: int) -> int {
    if k == 1 || k == 2 || k == 5 || k == 6 {
        1
    } else {
        0
    }
}

/// Lattice offset of voxel corner `k` along y.
pub open spec fn corner_dy(k: int) -> int {
    if 0 <= k <= 3 {
        1
    } else {
        0
    }
}

/// Lattice offset of voxel corner `k` along z.
pub open spec fn corner_dz(k: int) -> int {
    if k == 0 || k == 1 || k == 4 || k == 5 {
        1
    } else {
        0
    }
}

/// Configuration bit of corner `k` of the voxel at `(xi, yi, zi)`: set
/// exactly when the corner lies outside the solid (field value `>= 0`).
pub open spec fn corner_bit(
    g: Seq<bool>,
    nx: int,
    ny: int,
    xi: int,
    yi: int,
    zi: int,
    k: int,
) -> int {
    if inside_at(g, nx, ny, xi + corner_dx(k), yi + corner_dy(k), zi + corner_dz(k)) {
        0
    } else {
        1
    }
}

/// 8-bit corner configuration of the voxel at `(xi, yi, zi)`.
pub open spec fn cube_config(g: Seq<bool>, nx: int, ny: int, xi: int, yi: int, zi: int) -> int {
    corner_bit(g, nx, ny, xi, yi, zi, 0) + 2 * corner_bit(g, nx, ny, xi, yi, zi, 1) + 4
        * corner_bit(g, nx, ny, xi, yi, zi, 2) + 8 * corner_bit(g, nx, ny, xi, yi, zi, 3) + 16
        * corner_bit(g, nx, ny, xi, yi, zi, 4) + 32 * corner_bit(g, nx, ny, xi, yi, zi, 5) + 64
        * corner_bit(g, nx, ny, xi, yi, zi, 6) + 128 * corner_bit(g, nx, ny, xi, yi, zi, 7)
}

// ---------------------------------------------------------------------------
// Edges referenced by a voxel
// ---------------------------------------------------------------------------

/// The lattice edge that edge number `e` (0 to 11) of the voxel at
/// `(xi, yi, zi)` stands for.
pub open spec fn spec_edge(xi: int, yi: int, zi: int, e: int) -> EdgeId {
    if e == 0 {
        EdgeId { axis: Axis::X, x: xi as u32, y: (yi + 1) as u32, z: (zi + 1) as u32 }
    } else if e == 2 {
        EdgeId { axis: Axis::X, x: xi as u32, y: (yi + 1) as u32, z: zi as u32 }
    } else if e == 4 {
        EdgeId { axis: Axis::X, x: xi as u32, y: yi as u32, z: (zi + 1) as u32 }
    } else if e == 6 {
        EdgeId { axis: Axis::X, x: xi as u32, y: yi as u32, z: zi as u32 }
    } else if e == 8 {
        EdgeId { axis: Axis::Y, x: xi as u32, y: yi as u32, z: (zi + 1) as u32 }
    } else if e == 9 {
        EdgeId { axis: Axis::Y, x: (xi + 1) as u32, y: yi as u32, z: (zi + 1) as u32 }
    } else if e == 10 {
        EdgeId { axis: Axis::Y, x: (xi + 1) as u32, y: yi as u32, z: zi as u32 }
    } else if e == 11 {
        EdgeId { axis: Axis::Y, x: xi as u32, y: yi as u32, z: zi as u32 }
    } else if e == 1 {
        EdgeId { axis: Axis::Z, x: (xi + 1) as u32, y: (yi + 1) as u32, z: zi as u32 }
    } else if e == 3 {
        EdgeId { axis: Axis::Z, x: xi as u32, y: (yi + 1) as u32, z: zi as u32 }
    } else if e == 5 {
        EdgeId { axis: Axis::Z, x: (xi + 1) as u32, y: yi as u32, z: zi as u32 }
    } else {
        EdgeId { axis: Axis::Z, x: xi as u32, y: yi as u32, z: zi as u32 }
    }
}

/// The sequence of lattice edges that the triangulation row of the voxel at
/// `(xi, yi, zi)` references, in row order.
pub open spec fn voxel_refs(g: Seq<bool>, nx: int, ny: int, xi: int, yi: int, zi: int) -> Seq<
    EdgeId,
> {
    Seq::new(
        table::row_len(cube_config(g, nx, ny, xi, yi, zi)) as nat,
        |i: int|
            spec_edge(
                xi,
                yi,
                zi,
                table::tri_entry(cube_config(g, nx, ny, xi, yi, zi), i) as int,
            ),
    )
}

/// All edge references made by the voxels that the traversal visits before
/// voxel `(xi, yi, zi)`, in traversal order (z outermost, then y, then x).
/// The argument `(zi, yi, xi)` may also name the one-past-the-end position
/// of a row (`xi == nx`), of a layer (`yi == ny, xi == 0`), or of the grid.
pub open spec fn refs_before(
    g: Seq<bool>,
    nx: int,
    ny: int,
    zi: int,
    yi: int,
    xi: int,
) -> Seq<EdgeId>
    decreases zi, yi, xi,
{
    if xi > 0 {
        refs_before(g, nx, ny, zi, yi, xi - 1) + voxel_refs(g, nx, ny, xi - 1, yi, zi)
    } else if yi > 0 {
        refs_before(g, nx, ny, zi, yi - 1, nx)
    } else if zi > 0 {
        refs_before(g, nx, ny, zi - 1, ny, 0)
    } else {
        Seq::empty()
    }
}

/// Number of voxels that the traversal visits before voxel `(xi, yi, zi)`.
pub open spec fn voxels_before(nx: int, ny: int, zi: int, yi: int, xi: int) -> int
    decreases zi, yi, xi,
{
    if xi > 0 {
        voxels_before(nx, ny, zi, yi, xi - 1) + 1
    } else if yi > 0 {
        voxels_before(nx, ny, zi, yi - 1, nx)
    } else if zi > 0 {
        voxels_before(nx, ny, zi - 1, ny, 0)
    } else {
        0
    }
}

/// All edge references of the whole traversal.
pub open spec fn all_refs(g: Seq<bool>, nx: int, ny: int, nz: int) -> Seq<EdgeId> {
    refs_before(g, nx, ny, nz, 0, 0)
}

// ---------------------------------------------------------------------------
// First-occurrence deduplication
// ---------------------------------------------------------------------------

/// The distinct lattice edges of `s`, in order of first occurrence. This is
/// the vertex list of the mesh when `s` is the full reference sequence.
pub open spec fn dedup_verts(s: Seq<EdgeId>) -> Seq<EdgeId>
    decreases s.len(),
{
    if s.len() == 0 {
        Seq::empty()
    } else {
        let d = dedup_verts(s.drop_last());
        if d.contains(s.last()) {
            d
        } else {
            d.push(s.last())
        }
    }
}

/// The position of `e` in `d`, meaningful when `d` has no duplicates and
/// contains `e`.
pub open spec fn edge_index_in(d: Seq<EdgeId>, e: EdgeId) -> int {
    choose|i: int| 0 <= i < d.len() && d[i] == e
}

/// For each reference in `s`, the position of its lattice edge in
/// `dedup_verts(s)`. This is the index list of the mesh.
pub open spec fn dedup_indices(s: Seq<EdgeId>) -> Seq<int>
    decreases s.len(),
{
    if s.len() == 0 {
        Seq::empty()
    } else {
        let d = dedup_verts(s.drop_last());
        let i = if d.contains(s.last()) {
            edge_index_in(d, s.last())
        } else {
            d.len() as int
        };
        dedup_indices(s.drop_last()).push(i)
    }
}

/// The vertex list of the extracted mesh, as lattice edges.
pub open spec fn mesh_verts(g: Seq<bool>, nx: int, ny: int, nz: int) -> Seq<EdgeId> {
    dedup_verts(all_refs(g, nx, ny, nz))
}

/// The index list of the extracted mesh.
pub open spec fn mesh_indices(g: Seq<bool>, nx: int, ny: int, nz: int) -> Seq<int> {
    dedup_indices(all_refs(g, nx, ny, nz))
}

// ---------------------------------------------------------------------------
// Laws of the deduplication
// ---------------------------------------------------------------------------

/// A nonempty sequence contains exactly what its last element and the rest
/// contain.
pub proof fn lemma_contains_split(s: Seq<EdgeId>, e: EdgeId)
    requires
        s.len() > 0,
    ensures
        s.contains(e) <==> (s.drop_last().contains(e) || s.last() == e),
{
    if s.contains(e) {
        let i = choose|i: int| 0 <= i < s.len() && s[i] == e;
        if i < s.len() - 1 {
            assert(s.drop_last()[i] == e);
        }
    }
    if s.drop_last().contains(e) {
        let i = choose|i: int| 0 <= i < s.drop_last().len() && s.drop_last()[i] == e;
        assert(s[i] == e);
    }
    if s.last() == e {
        assert(s[s.len() - 1] == e);
    }
}

/// The deduplicated list has no duplicates, is no longer than its source,
/// and holds exactly the edges of its source; the index list is as long as
/// the source.
pub proof fn lemma_dedup_basic(s: Seq<EdgeId>)
    ensures
        dedup_verts(s).no_duplicates(),
        dedup_verts(s).len() <= s.len(),
        forall|e: EdgeId| #[trigger] dedup_verts(s).contains(e) <==> s.contains(e),
        dedup_indices(s).len() == s.len(),
    decreases s.len(),
{
    if s.len() == 0 {
        assert forall|e: EdgeId| #[trigger] dedup_verts(s).contains(e) <==> s.contains(e) by {
            if s.contains(e) {
                let i = choose|i: int| 0 <= i < s.len() && s[i] == e;
            }
        }
    } else {
        lemma_dedup_basic(s.drop_last());
        let d = dedup_verts(s.drop_last());
        assert forall|e: EdgeId| #[trigger] dedup_verts(s).contains(e) <==> s.contains(e) by {
            lemma_contains_split(s, e);
            if dedup_verts(s).contains(e) {
                let i = choose|i: int| 0 <= i < dedup_verts(s).len() && dedup_verts(s)[i] == e;
                if i < d.len() {
                    assert(d[i] == e);
                } else {
                    assert(e == s.last());
                }
            }
            if d.contains(e) {
                let i = choose|i: int| 0 <= i < d.len() && d[i] == e;
                assert(dedup_verts(s)[i] == e);
            }
            if s.last() == e && !d.contains(e) {
                assert(dedup_verts(s)[d.len() as int] == e);
            }
        }
        if !d.contains(s.last()) {
            assert forall|i: int, j: int|
                0 <= i < dedup_verts(s).len() && 0 <= j < dedup_verts(s).len() && i != j
                implies dedup_verts(s)[i] != dedup_verts(s)[j] by {
                if i < d.len() && j < d.len() {
                } else if i < d.len() {
                    assert(d.contains(d[i]));
                } else if j < d.len() {
                    assert(d.contains(d[j]));
                }
            }
        }
    }
}

/// Position, existence and uniqueness of an edge in a duplicate-free list.
pub proof fn lemma_index_in(d: Seq<EdgeId>, e: EdgeId)
    requires
        d.no_duplicates(),
        d.contains(e),
    ensures
        0 <= edge_index_in(d, e) < d.len(),
        d[edge_index_in(d, e)] == e,
        forall|i: int| 0 <= i < d.len() && d[i] == e ==> i == edge_index_in(d, e),
{
    let i0 = choose|i: int| 0 <= i < d.len() && d[i] == e;
    assert(0 <= edge_index_in(d, e) < d.len() && d[edge_index_in(d, e)] == e);
}

/// Deduplicating one more reference: a seen edge leaves the vertex list
/// unchanged and appends the edge's existing position to the index list; a
/// new edge is appended to both.
pub proof fn lemma_dedup_push(s: Seq<EdgeId>, e: EdgeId)
    ensures
        dedup_verts(s.push(e)) == (if dedup_verts(s).contains(e) {
            dedup_verts(s)
        } else {
            dedup_verts(s).push(e)
        }),
        dedup_indices(s.push(e)) == dedup_indices(s).push(
            if dedup_verts(s).contains(e) {
                edge_index_in(dedup_verts(s), e)
            } else {
                dedup_verts(s).len() as int
            },
        ),
{
    assert(s.push(e).drop_last() =~= s);
    assert(s.push(e).last() == e);
}

/// Each index of the index list points at the vertex-list entry holding
/// that reference's lattice edge.
pub proof fn lemma_dedup_index_at(s: Seq<EdgeId>, k: int)
    requires
        0 <= k < s.len(),
    ensures
        dedup_indices(s)[k] == edge_index_in(dedup_verts(s), s[k]),
        0 <= dedup_indices(s)[k] < dedup_verts(s).len(),
        dedup_verts(s)[dedup_indices(s)[k]] == s[k],
    decreases s.len(),
{
    lemma_dedup_basic(s);
    lemma_dedup_basic(s.drop_last());
    let d = dedup_verts(s.drop_last());
    if k == s.len() - 1 {
        assert(s.contains(s[k]));
        lemma_index_in(dedup_verts(s), s[k]);
        if d.contains(s.last()) {
            lemma_index_in(d, s.last());
        } else {
            assert(dedup_verts(s)[d.len() as int] == s[k]);
        }
    } else {
        lemma_dedup_index_at(s.drop_last(), k);
        assert(s.drop_last()[k] == s[k]);
        assert(s.drop_last().contains(s[k]));
        lemma_index_in(d, s[k]);
        let i = edge_index_in(d, s[k]);
        assert(dedup_verts(s)[i] == s[k]);
        lemma_index_in(dedup_verts(s), s[k]);
        assert(dedup_indices(s)[k] == dedup_indices(s.drop_last())[k]);
    }
}

// ---------------------------------------------------------------------------
// Shape of the reference sequence
// ---------------------------------------------------------------------------

/// Every edge that a voxel references lies in one of the voxel's two
/// lattice planes: a z-aligned edge starts in plane `zi`, any other edge
/// lies in plane `zi` or `zi + 1`.
pub proof fn lemma_voxel_refs_shape(g: Seq<bool>, nx: int, ny: int, xi: int, yi: int, zi: int)
    requires
        0 <= xi < 0x40_0000,
        0 <= yi < 0x40_0000,
        0 <= zi < 0x40_0000,
    ensures
        forall|k: int|
            0 <= k < voxel_refs(g, nx, ny, xi, yi, zi).len() ==> {
                let e = #[trigger] voxel_refs(g, nx, ny, xi, yi, zi)[k];
                &&& (e.axis == Axis::Z ==> (e.z as int) == zi)
                &&& (e.axis != Axis::Z ==> zi <= (e.z as int) <= zi + 1)
            },
{
    let code = cube_config(g, nx, ny, xi, yi, zi);
    assert forall|k: int| 0 <= k < voxel_refs(g, nx, ny, xi, yi, zi).len() implies {
        let e = #[trigger] voxel_refs(g, nx, ny, xi, yi, zi)[k];
        &&& (e.axis == Axis::Z ==> (e.z as int) == zi)
        &&& (e.axis != Axis::Z ==> zi <= (e.z as int) <= zi + 1)
    } by {
        table::lemma_row_len_bounds(code);
        table::lemma_row_entry(code, k);
    }
}

/// Where an already made reference may lie, seen from traversal position
/// `(zi, yi, xi)`: before the current layer begins (`at_start`), z-aligned
/// edges are strictly below plane `zi` and other edges at or below plane
/// `zi`; while the layer runs, one plane higher.
pub open spec fn ref_plane_ok(e: EdgeId, zi: int, at_start: bool) -> bool {
    if e.axis == Axis::Z {
        if at_start {
            (e.z as int) < zi
        } else {
            (e.z as int) <= zi
        }
    } else {
        if at_start {
            (e.z as int) <= zi
        } else {
            (e.z as int) <= zi + 1
        }
    }
}

/// Every edge referenced before position `(zi, yi, xi)` of the traversal
/// lies in an already visited region.
pub proof fn lemma_refs_planes(g: Seq<bool>, nx: int, ny: int, zi: int, yi: int, xi: int)
    requires
        1 <= nx < 0x40_0000,
        1 <= ny < 0x40_0000,
        0 <= zi < 0x40_0000,
        0 <= yi <= ny,
        0 <= xi <= nx,
    ensures
        forall|k: int|
            0 <= k < refs_before(g, nx, ny, zi, yi, xi).len() ==> ref_plane_ok(
                #[trigger] refs_before(g, nx, ny, zi, yi, xi)[k],
                zi,
                yi == 0 && xi == 0,
            ),
    decreases zi, yi, xi,
{
    let r = refs_before(g, nx, ny, zi, yi, xi);
    if xi > 0 {
        lemma_refs_planes(g, nx, ny, zi, yi, xi - 1);
        lemma_voxel_refs_shape(g, nx, ny, xi - 1, yi, zi);
        let prev = refs_before(g, nx, ny, zi, yi, xi - 1);
        let vr = voxel_refs(g, nx, ny, xi - 1, yi, zi);
        assert forall|k: int| 0 <= k < r.len() implies ref_plane_ok(
            #[trigger] r[k],
            zi,
            false,
        ) by {
            if k < prev.len() {
                assert(r[k] == prev[k]);
                assert(ref_plane_ok(prev[k], zi, yi == 0 && xi - 1 == 0));
            } else {
                assert(r[k] == vr[k - prev.len()]);
            }
        }
    } else if yi > 0 {
        lemma_refs_planes(g, nx, ny, zi, yi - 1, nx);
        assert(r == refs_before(g, nx, ny, zi, yi - 1, nx));
        assert forall|k: int| 0 <= k < r.len() implies ref_plane_ok(
            #[trigger] r[k],
            zi,
            false,
        ) by {
            assert(ref_plane_ok(refs_before(g, nx, ny, zi, yi - 1, nx)[k], zi, false));
        }
    } else if zi > 0 {
        lemma_refs_planes(g, nx, ny, zi - 1, ny, 0);
        assert(r == refs_before(g, nx, ny, zi - 1, ny, 0));
        assert forall|k: int| 0 <= k < r.len() implies ref_plane_ok(
            #[trigger] r[k],
            zi,
            true,
        ) by {
            assert(ref_plane_ok(refs_before(g, nx, ny, zi - 1, ny, 0)[k], zi - 1, false));
        }
    }
}

/// Length bookkeeping of the reference sequence: a multiple of three, at
/// most sixteen references per visited voxel.
pub proof fn lemma_refs_len(g: Seq<bool>, nx: int, ny: int, zi: int, yi: int, xi: int)
    requires
        0 <= nx,
        0 <= ny,
        0 <= zi,
        0 <= yi,
        0 <= xi,
    ensures
        refs_before(g, nx, ny, zi, yi, xi).len() % 3 == 0,
        refs_before(g, nx, ny, zi, yi, xi).len() <= 16 * voxels_before(nx, ny, zi, yi, xi),
        0 <= voxels_before(nx, ny, zi, yi, xi),
    decreases zi, yi, xi,
{
    if xi > 0 {
        lemma_refs_len(g, nx, ny, zi, yi, xi - 1);
        table::lemma_row_len_bounds(cube_config(g, nx, ny, xi - 1, yi, zi));
    } else if yi > 0 {
        lemma_refs_len(g, nx, ny, zi, yi - 1, nx);
    } else if zi > 0 {
        lemma_refs_len(g, nx, ny, zi - 1, ny, 0);
    }
}

/// The voxel count of the traversal prefix, in closed form.
pub proof fn lemma_voxels_before_eq(nx: int, ny: int, zi: int, yi: int, xi: int)
    requires
        1 <= nx,
        1 <= ny,
        0 <= zi,
        0 <= yi <= ny,
        0 <= xi <= nx,
    ensures
        voxels_before(nx, ny, zi, yi, xi) == (zi * ny + yi) * nx + xi,
    decreases zi, yi, xi,
{
    if xi > 0 {
        lemma_voxels_before_eq(nx, ny, zi, yi, xi - 1);
    } else if yi > 0 {
        lemma_voxels_before_eq(nx, ny, zi, yi - 1, nx);
        assert(voxels_before(nx, ny, zi, yi, xi) == voxels_before(nx, ny, zi, yi - 1, nx));
        assert((zi * ny + (yi - 1)) * nx + nx == (zi * ny + yi) * nx + 0) by (nonlinear_arith);
    } else if zi > 0 {
        lemma_voxels_before_eq(nx, ny, zi - 1, ny, 0);
        assert(voxels_before(nx, ny, zi, yi, xi) == voxels_before(nx, ny, zi - 1, ny, 0));
        assert(((zi - 1) * ny + ny) * nx + 0 == (zi * ny + 0) * nx + 0) by (nonlinear_arith);
    } else {
        assert((0 * ny + 0) * nx + 0 == 0) by (nonlinear_arith);
    }
}

/// No traversal prefix visits more voxels than the grid has.
pub proof fn lemma_voxels_before_bound(nx: int, ny: int, nz: int, zi: int, yi: int, xi: int)
    requires
        1 <= nx,
        1 <= ny,
        1 <= nz,
        0 <= zi <= nz,
        0 <= yi <= ny,
        0 <= xi <= nx,
        (yi == ny) ==> (xi == 0),
        (zi == nz) ==> (yi == 0 && xi == 0),
    ensures
        voxels_before(nx, ny, zi, yi, xi) <= nx * ny * nz,
{
    lemma_voxels_before_eq(nx, ny, zi, yi, xi);
    assert((zi * ny + yi) * nx + xi <= nx * ny * nz) by (nonlinear_arith)
        requires
            1 <= nx,
            1 <= ny,
            1 <= nz,
            0 <= zi <= nz,
            0 <= yi <= ny,
            0 <= xi <= nx,
            (yi == ny) ==> (xi == 0),
            (zi == nz) ==> (yi == 0 && xi == 0),
    ;
}

/// Two references to the same lattice edge resolve to the same vertex
/// index: the deduplication is exact.
pub proof fn lemma_dedup_shared(s: Seq<EdgeId>, j1: int, j2: int)
    requires
        0 <= j1 < s.len(),
        0 <= j2 < s.len(),
        s[j1] == s[j2],
    ensures
        dedup_indices(s)[j1] == dedup_indices(s)[j2],
{
    lemma_dedup_index_at(s, j1);
    lemma_dedup_index_at(s, j2);
}

// ---------------------------------------------------------------------------
// Laws of the extracted mesh
// ---------------------------------------------------------------------------

proof fn lemma_contains_concat_right(s: Seq<EdgeId>, t: Seq<EdgeId>, x: EdgeId)
    requires
        t.contains(x),
    ensures
        (s + t).contains(x),
{
    let i = choose|i: int| 0 <= i < t.len() && t[i] == x;
    assert((s + t)[s.len() + i] == x);
}

proof fn lemma_dedup_concat(s: Seq<EdgeId>, t: Seq<EdgeId>)
    ensures
        dedup_verts(s + t).len() <= dedup_verts(s).len() + dedup_verts(t).len(),
    decreases t.len(),
{
    if t.len() == 0 {
        assert(s + t =~= s);
    } else {
        let t0 = t.drop_last();
        let e = t.last();
        lemma_dedup_concat(s, t0);
        assert(s + t =~= (s + t0).push(e));
        assert(t =~= t0.push(e));
        lemma_dedup_push(s + t0, e);
        lemma_dedup_push(t0, e);
        lemma_dedup_basic(s + t0);
        lemma_dedup_basic(t0);
        if !dedup_verts(s + t0).contains(e) {
            if t0.contains(e) {
                lemma_contains_concat_right(s, t0, e);
            }
            assert(!dedup_verts(t0).contains(e));
        }
    }
}

proof fn lemma_voxel_dedup_bound(g: Seq<bool>, nx: int, ny: int, xi: int, yi: int, zi: int)
    ensures
        dedup_verts(voxel_refs(g, nx, ny, xi, yi, zi)).len() <= 12,
{
    let code = cube_config(g, nx, ny, xi, yi, zi);
    let vr = voxel_refs(g, nx, ny, xi, yi, zi);
    let cand = Seq::new(12, |e: int| spec_edge(xi, yi, zi, e));
    lemma_dedup_basic(vr);
    table::lemma_row_len_bounds(code);
    let d = dedup_verts(vr);
    assert forall|i: int| 0 <= i < d.len() implies cand.contains(#[trigger] d[i]) by {
        assert(d[i] == d[i]);
        assert(d.contains(d[i]));
        assert(vr.contains(d[i]));
        let k = choose|k: int| 0 <= k < vr.len() && vr[k] == d[i];
        table::lemma_row_entry(code, k);
        assert(cand[table::tri_entry(code, k) as int] == d[i]);
    }
    d.unique_seq_to_set();
    cand.lemma_cardinality_of_set();
    assert(d.to_set().subset_of(cand.to_set())) by {
        assert forall|x: EdgeId| d.to_set().contains(x) implies cand.to_set().contains(x) by {
            let i = choose|i: int| 0 <= i < d.len() && d[i] == x;
            assert(cand.contains(d[i]));
        }
    }
    broadcast use vstd::seq_lib::seq_to_set_is_finite;

    vstd::set_lib::lemma_len_subset(d.to_set(), cand.to_set());
}

proof fn lemma_verts_bound_rec(g: Seq<bool>, nx: int, ny: int, zi: int, yi: int, xi: int)
    requires
        0 <= nx,
        0 <= ny,
        0 <= zi,
        0 <= yi,
        0 <= xi,
    ensures
        dedup_verts(refs_before(g, nx, ny, zi, yi, xi)).len() <= 12 * voxels_before(
            nx,
            ny,
            zi,
            yi,
            xi,
        ),
    decreases zi, yi, xi,
{
    if xi > 0 {
        lemma_verts_bound_rec(g, nx, ny, zi, yi, xi - 1);
        lemma_dedup_concat(
            refs_before(g, nx, ny, zi, yi, xi - 1),
            voxel_refs(g, nx, ny, xi - 1, yi, zi),
        );
        lemma_voxel_dedup_bound(g, nx, ny, xi - 1, yi, zi);
    } else if yi > 0 {
        lemma_verts_bound_rec(g, nx, ny, zi, yi - 1, nx);
    } else if zi > 0 {
        lemma_verts_bound_rec(g, nx, ny, zi - 1, ny, 0);
    } else {
        assert(refs_before(g, nx, ny, 0, 0, 0) =~= Seq::<EdgeId>::empty());
    }
}

/// Vertex count bound: a grid of `nx * ny * nz` voxels emits at most
/// twelve vertices per voxel — one per cube edge — however often its
/// edges are referenced.
pub proof fn lemma_vertex_count_bound(g: Seq<bool>, nx: int, ny: int, nz: int)
    requires
        1 <= nx,
        1 <= ny,
        1 <= nz,
    ensures
        mesh_verts(g, nx, ny, nz).len() <= 12 * (nx * ny * nz),
{
    lemma_verts_bound_rec(g, nx, ny, nz, 0, 0);
    lemma_voxels_before_eq(nx, ny, nz, 0, 0);
    assert((nz * ny + 0) * nx + 0 == nx * ny * nz) by (nonlinear_arith);
}

/// A voxel all of whose corners lie on one side of the surface references
/// no edge at all.
pub proof fn lemma_uniform_voxel(g: Seq<bool>, nx: int, ny: int, xi: int, yi: int, zi: int)
    requires
        cube_config(g, nx, ny, xi, yi, zi) == 0 || cube_config(g, nx, ny, xi, yi, zi) == 255,
    ensures
        voxel_refs(g, nx, ny, xi, yi, zi).len() == 0,
{
    table::lemma_trivial_rows();
}

proof fn lemma_uniform_refs(
    g: Seq<bool>,
    nx: int,
    ny: int,
    nz: int,
    zi: int,
    yi: int,
    xi: int,
)
    requires
        1 <= nx,
        1 <= ny,
        1 <= nz,
        g.len() == grid_len(nx, ny, nz),
        forall|i: int| 0 <= i < g.len() ==> #[trigger] g[i] == g[0],
        0 <= zi <= nz,
        0 <= yi <= ny,
        0 <= xi <= nx,
        xi > 0 ==> (yi < ny && zi < nz),
        (yi > 0 && xi == 0) ==> zi < nz,
    ensures
        refs_before(g, nx, ny, zi, yi, xi).len() == 0,
    decreases zi, yi, xi,
{
    if xi > 0 {
        lemma_uniform_refs(g, nx, ny, nz, zi, yi, xi - 1);
        let code = cube_config(g, nx, ny, xi - 1, yi, zi);
        assert forall|k: int| 0 <= k < 8 implies #[trigger] corner_bit(g, nx, ny, xi - 1, yi, zi, k)
            == (if g[0] {
            0int
        } else {
            1int
        }) by {
            let cx = xi - 1 + corner_dx(k);
            let cy = yi + corner_dy(k);
            let cz = zi + corner_dz(k);
            lemma_lattice_in_grid(nx, ny, nz, cx, cy, cz);
            assert(g[lattice_index(nx, ny, cx, cy, cz)] == g[0]);
        }
        assert(code == 0 || code == 255);
        lemma_uniform_voxel(g, nx, ny, xi - 1, yi, zi);
    } else if yi > 0 {
        lemma_uniform_refs(g, nx, ny, nz, zi, yi - 1, nx);
    } else if zi > 0 {
        lemma_uniform_refs(g, nx, ny, nz, zi - 1, ny, 0);
    }
}

/// A lattice point of the grid has its bit inside the grid's bit list.
pub proof fn lemma_lattice_in_grid(nx: int, ny: int, nz: int, x: int, y: int, z: int)
    requires
        0 <= x <= nx,
        0 <= y <= ny,
        0 <= z <= nz,
        0 <= nx,
        0 <= ny,
        0 <= nz,
    ensures
        0 <= lattice_index(nx, ny, x, y, z) < grid_len(nx, ny, nz),
{
    assert(0 <= (z * (ny + 1) + y) * (nx + 1) + x < (nx + 1) * (ny + 1) * (nz + 1))
        by (nonlinear_arith)
        requires
            0 <= x <= nx,
            0 <= y <= ny,
            0 <= z <= nz,
            0 <= nx,
            0 <= ny,
            0 <= nz,
    ;
}

/// A field without a sign change anywhere — every lattice point inside,
/// or every lattice point outside — produces an empty mesh: no vertex and
/// no index.
pub proof fn lemma_uniform_grid_empty(g: Seq<bool>, nx: int, ny: int, nz: int)
    requires
        1 <= nx,
        1 <= ny,
        1 <= nz,
        g.len() == grid_len(nx, ny, nz),
        forall|i: int| 0 <= i < g.len() ==> #[trigger] g[i] == g[0],
    ensures
        mesh_verts(g, nx, ny, nz).len() == 0,
        mesh_indices(g, nx, ny, nz).len() == 0,
{
    lemma_uniform_refs(g, nx, ny, nz, nz, 0, 0);
    lemma_dedup_basic(all_refs(g, nx, ny, nz));
}

/// Determinism: the mesh is a function of the grid bits and the
/// resolution alone; equal inputs give bit-identical vertex and index
/// lists.
pub proof fn lemma_deterministic(g1: Seq<bool>, g2: Seq<bool>, nx: int, ny: int, nz: int)
    requires
        g1 == g2,
    ensures
        mesh_verts(g1, nx, ny, nz) == mesh_verts(g2, nx, ny, nz),
        mesh_indices(g1, nx, ny, nz) == mesh_indices(g2, nx, ny, nz),
{
}

/// Deduplication correctness at mesh level: whenever two voxel visits of
/// the traversal reference the same lattice edge, the emitted index lists
/// point both references at one and the same vertex.
pub proof fn lemma_shared_edge_one_vertex(
    g: Seq<bool>,
    nx: int,
    ny: int,
    nz: int,
    j1: int,
    j2: int,
)
    requires
        0 <= j1 < all_refs(g, nx, ny, nz).len(),
        0 <= j2 < all_refs(g, nx, ny, nz).len(),
        all_refs(g, nx, ny, nz)[j1] == all_refs(g, nx, ny, nz)[j2],
    ensures
        mesh_indices(g, nx, ny, nz)[j1] == mesh_indices(g, nx, ny, nz)[j2],
{
    lemma_dedup_shared(all_refs(g, nx, ny, nz), j1, j2);
}

} // verus!
