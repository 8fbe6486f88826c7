//! The shape of three meshes: a belt between two points, a flat ring and a
//! spherical zone. Here are their parameters and the triangles that join
//! their vertices (the index buffers); where the vertices lie is geometry
//! over floating point, carried here as opaque type parameters (`V` for a
//! point, `D` for a direction, `F` for a length or an angle).
use vstd::prelude::*;

verus! {

// ---------------------------------------------------------------------------
// Belt
// ---------------------------------------------------------------------------

/// A belt from a start point and cross direction to an end point and cross
/// direction, cut into `resolution` segments.
#[derive(Debug, Clone, Copy)]
pub struct Belt<V, D, F> {
    pub start_pos: V,
    /// Cross-sectional direction at the start point.
    pub start_dir: D,
    pub end_pos: V,
    /// Cross-sectional direction at the end point.
    pub end_dir: D,
    pub width: F,
    pub resolution: u32,
}

/// The builder of a belt's mesh.
#[derive(Debug, Clone, Copy)]
pub struct BeltMeshBuilder<V, D, F> {
    pub start_pos: V,
    pub start_dir: D,
    pub end_pos: V,
    pub end_dir: D,
    pub width: F,
    pub resolution: u32,
}

impl<V: Copy, D: Copy, F: Copy> Belt<V, D, F> {
    /// A belt with 32 segments.
    pub fn new(start_pos: V, start_dir: D, end_pos: V, end_dir: D, width: F) -> (r: Self)
        ensures
            r == (Belt { start_pos, start_dir, end_pos, end_dir, width, resolution: 32 }),
    {
        Self { start_pos, start_dir, end_pos, end_dir, width, resolution: 32 }
    }

    /// This belt with another number of segments.
    pub fn with_resolution(self, resolution: u32) -> (r: Self)
        ensures
            r == (Belt { resolution, ..self }),
    {
        Self { resolution, ..self }
    }

    /// The builder of this belt's mesh.
    pub fn mesh(&self) -> (r: BeltMeshBuilder<V, D, F>)
        ensures
            r == (BeltMeshBuilder {
                start_pos: self.start_pos,
                start_dir: self.start_dir,
                end_pos: self.end_pos,
                end_dir: self.end_dir,
                width: self.width,
                resolution: self.resolution,
            }),
    {
        BeltMeshBuilder {
            start_pos: self.start_pos,
            start_dir: self.start_dir,
            end_pos: self.end_pos,
            end_dir: self.end_dir,
            width: self.width,
            resolution: self.resolution,
        }
    }
}

/// The `j`-th index (of six) of segment `i` on the outer side: vertex
/// `2i` and `2i + 1` are the near and far vertex at step `i`.
pub open spec fn belt_outer(i: int, j: int) -> int {
    let base = 2 * i;
    let next = 2 * (i + 1);
    if j == 0 {
        base
    } else if j == 1 {
        next
    } else if j == 2 {
        base + 1
    } else if j == 3 {
        base + 1
    } else if j == 4 {
        next
    } else {
        next + 1
    }
}

/// The `j`-th index of segment `i` on the inner side, whose vertices
/// follow the outer ones (from `offset` on) and whose winding is reversed.
pub open spec fn belt_inner(i: int, j: int, offset: int) -> int {
    let base = 2 * i + offset;
    let next = 2 * (i + 1) + offset;
    if j == 0 {
        base
    } else if j == 1 {
        base + 1
    } else if j == 2 {
        next
    } else if j == 3 {
        base + 1
    } else if j == 4 {
        next + 1
    } else {
        next
    }
}

impl<V, D, F> BeltMeshBuilder<V, D, F> {
    /// The number of vertices: a near and a far vertex at each of the
    /// `resolution + 1` steps, on each of the two sides.
    pub fn vertex_count(&self) -> (r: u64)
        ensures
            r == 4 * (self.resolution + 1),
    {
        4 * (self.resolution as u64 + 1)
    }

    /// The triangle list of the belt: two triangles per segment on the outer
    /// side, then the same on the inner side with reversed winding.
    pub fn indices(&self) -> (r: Vec<u32>)
        requires
            self.resolution < 0x4000_0000,
        ensures
            r@.len() == 12 * self.resolution,
            forall|i: int, j: int|
                0 <= i < self.resolution && 0 <= j < 6 ==> #[trigger] r@[6 * i + j] == belt_outer(i, j),
            forall|i: int, j: int|
                0 <= i < self.resolution && 0 <= j < 6 ==> #[trigger] r@[6 * self.resolution + 6 * i + j]
                    == belt_inner(i, j, 2 * (self.resolution + 1)),
            forall|k: int| 0 <= k < r@.len() ==> #[trigger] r@[k] < 4 * (self.resolution + 1),
    {
        let res = self.resolution;
        let mut indices: Vec<u32> = Vec::new();
        let mut i: u32 = 0;
        while i < res
            invariant
                res == self.resolution,
                res < 0x4000_0000,
                i <= res,
                indices@.len() == 6 * i,
                forall|i2: int, j: int| 0 <= i2 < i && 0 <= j < 6 ==> #[trigger] indices@[6 * i2 + j] == belt_outer(i2, j),
                forall|k: int| 0 <= k < indices@.len() ==> #[trigger] indices@[k] < 4 * (res + 1),
            decreases res - i,
        {
            let base = i * 2;
            let next = (i + 1) * 2;
            indices.push(base);
            indices.push(next);
            indices.push(base + 1);
            indices.push(base + 1);
            indices.push(next);
            indices.push(next + 1);
            proof {
                assert forall|i2: int, j: int| 0 <= i2 < i + 1 && 0 <= j < 6 implies #[trigger] indices@[6 * i2 + j] == belt_outer(i2, j) by {
                    if i2 == i {
                        assert(indices@[6 * i2 + j] == indices@[6 * i + j]);
                    }
                }
            }
            i = i + 1;
        }
        let index_offset: u32 = (res + 1) * 2;
        let ghost front = indices@;
        let mut i: u32 = 0;
        while i < res
            invariant
                res == self.resolution,
                res < 0x4000_0000,
                index_offset == 2 * (res + 1),
                i <= res,
                front.len() == 6 * res,
                indices@.len() == 6 * res + 6 * i,
                forall|k: int| 0 <= k < 6 * res ==> #[trigger] indices@[k] == front[k],
                forall|i2: int, j: int| 0 <= i2 < res && 0 <= j < 6 ==> #[trigger] front[6 * i2 + j] == belt_outer(i2, j),
                forall|i2: int, j: int|
                    0 <= i2 < i && 0 <= j < 6 ==> #[trigger] indices@[6 * res + 6 * i2 + j] == belt_inner(i2, j, 2 * (res + 1)),
                forall|k: int| 0 <= k < indices@.len() ==> #[trigger] indices@[k] < 4 * (res + 1),
            decreases res - i,
        {
            let base = i * 2 + index_offset;
            let next = (i + 1) * 2 + index_offset;
            indices.push(base);
            indices.push(base + 1);
            indices.push(next);
            indices.push(base + 1);
            indices.push(next + 1);
            indices.push(next);
            proof {
                assert forall|i2: int, j: int| 0 <= i2 < i + 1 && 0 <= j < 6 implies #[trigger] indices@[6 * res + 6 * i2 + j] == belt_inner(i2, j, 2 * (res + 1)) by {
                    if i2 == i {
                        assert(indices@[6 * res + 6 * i2 + j] == indices@[6 * res + 6 * i + j]);
                    }
                }
            }
            i = i + 1;
        }
        proof {
            assert forall|i2: int, j: int| 0 <= i2 < res && 0 <= j < 6 implies #[trigger] indices@[6 * i2 + j] == belt_outer(i2, j) by {
                assert(indices@[6 * i2 + j] == front[6 * i2 + j]);
            }
        }
        indices
    }
}

// ---------------------------------------------------------------------------
// Flat ring
// ---------------------------------------------------------------------------

/// A flat ring around `normal`, starting at `up`, cut into `resolution`
/// segments.
#[derive(Debug, Clone, Copy)]
pub struct FlatRing3d<D, F> {
    pub normal: D,
    pub outer_radius: F,
    pub inner_radius: F,
    /// The direction of the ring's start, where the UV coordinate is 0.
    pub up: D,
    pub resolution: u32,
}

/// The builder of a flat ring's mesh.
#[derive(Debug, Clone, Copy)]
pub struct FlatRing3dMeshBuilder<D, F> {
    pub normal: D,
    pub up: D,
    pub outer_radius: F,
    pub inner_radius: F,
    pub resolution: u32,
}

impl<D: Copy, F: Copy> FlatRing3d<D, F> {
    /// A ring with the given start direction and 32 segments.
    pub fn with_up(normal: D, outer_radius: F, inner_radius: F, up: D) -> (r: Self)
        ensures
            r == (FlatRing3d { normal, outer_radius, inner_radius, up, resolution: 32 }),
    {
        Self { normal, outer_radius, inner_radius, up, resolution: 32 }
    }

    /// This ring with another number of segments.
    pub fn with_resolution(self, resolution: u32) -> (r: Self)
        ensures
            r == (FlatRing3d { resolution, ..self }),
    {
        Self { resolution, ..self }
    }

    /// The builder of this ring's mesh.
    pub fn mesh(&self) -> (r: FlatRing3dMeshBuilder<D, F>)
        ensures
            r == (FlatRing3dMeshBuilder {
                normal: self.normal,
                up: self.up,
                outer_radius: self.outer_radius,
                inner_radius: self.inner_radius,
                resolution: self.resolution,
            }),
    {
        FlatRing3dMeshBuilder {
            normal: self.normal,
            up: self.up,
            outer_radius: self.outer_radius,
            inner_radius: self.inner_radius,
            resolution: self.resolution,
        }
    }
}

impl<D, F> FlatRing3dMeshBuilder<D, F> {
    /// The number of vertices: an inner and an outer one at each of the
    /// `resolution + 1` steps (the last step closes the ring).
    pub fn vertex_count(&self) -> (r: u32)
        requires
            2 * (self.resolution + 1) <= u32::MAX,
        ensures
            r == 2 * (self.resolution + 1),
    {
        (self.resolution + 1) * 2
    }

    /// The triangle strip of the ring: every vertex in order.
    pub fn indices(&self) -> (r: Vec<u32>)
        requires
            2 * (self.resolution + 1) <= u32::MAX,
        ensures
            r@.len() == 2 * (self.resolution + 1),
            forall|k: int| 0 <= k < r@.len() ==> #[trigger] r@[k] == k,
    {
        let n = (self.resolution + 1) * 2;
        let mut r: Vec<u32> = Vec::new();
        let mut k: u32 = 0;
        while k < n
            invariant
                k <= n,
                r@.len() == k,
                forall|k2: int| 0 <= k2 < k ==> #[trigger] r@[k2] == k2,
            decreases n - k,
        {
            r.push(k);
            k = k + 1;
        }
        r
    }
}

// ---------------------------------------------------------------------------
// Spherical zone
// ---------------------------------------------------------------------------

/// The part of a sphere between two angles from its top, cut into
/// `circle_resolution` slices around and `angle_resolution` rings down;
/// double sided or seen from outside only.
#[derive(Debug, Clone, Copy)]
pub struct SphericalZone<F> {
    radius: F,
    angle_up: F,
    angle_down: F,
    circle_resolution: u32,
    angle_resolution: u32,
    is_double_sided: bool,
}

/// The builder of a spherical zone's mesh.
#[derive(Debug, Clone, Copy)]
pub struct SphericalZoneMeshBuilder<F> {
    pub radius: F,
    pub angle_up: F,
    pub angle_down: F,
    pub circle_resolution: u32,
    pub angle_resolution: u32,
    pub is_double_sided: bool,
}

impl<F: Copy> SphericalZone<F> {
    /// The radius and the two angles of this zone.
    pub closed spec fn shape(self) -> (F, F, F) {
        (self.radius, self.angle_up, self.angle_down)
    }

    /// The slices around the zone.
    pub closed spec fn circle_resolution_spec(self) -> u32 {
        self.circle_resolution
    }

    /// The rings down the zone.
    pub closed spec fn angle_resolution_spec(self) -> u32 {
        self.angle_resolution
    }

    /// Whether the zone has an inner side too.
    pub closed spec fn is_double_sided_spec(self) -> bool {
        self.is_double_sided
    }

    /// A zone of 32 slices and 16 rings, seen from outside only. The
    /// radius must be positive and `0 <= angle_up < angle_down <= PI`; the
    /// caller checks that.
    pub fn new(radius: F, angle_up: F, angle_down: F) -> (r: Self)
        ensures
            r.shape() == (radius, angle_up, angle_down),
            r.circle_resolution_spec() == 32,
            r.angle_resolution_spec() == 16,
            !r.is_double_sided_spec(),
    {
        Self { radius, angle_up, angle_down, circle_resolution: 32, angle_resolution: 16, is_double_sided: false }
    }

    /// This zone, double sided or not.
    pub fn with_double_sided(self, is_double_sided: bool) -> (r: Self)
        ensures
            r.is_double_sided_spec() == is_double_sided,
            r.shape() == self.shape(),
            r.circle_resolution_spec() == self.circle_resolution_spec(),
            r.angle_resolution_spec() == self.angle_resolution_spec(),
    {
        Self { is_double_sided, ..self }
    }

    /// This zone with another number of slices, which must be positive.
    pub fn with_circle_resolution(self, circle_resolution: u32) -> (r: Self)
        requires
            circle_resolution > 0,
        ensures
            r.circle_resolution_spec() == circle_resolution,
            r.shape() == self.shape(),
            r.angle_resolution_spec() == self.angle_resolution_spec(),
            r.is_double_sided_spec() == self.is_double_sided_spec(),
    {
        Self { circle_resolution, ..self }
    }

    /// This zone with another number of rings, which must be positive.
    pub fn with_angle_resolution(self, angle_resolution: u32) -> (r: Self)
        requires
            angle_resolution > 0,
        ensures
            r.angle_resolution_spec() == angle_resolution,
            r.shape() == self.shape(),
            r.circle_resolution_spec() == self.circle_resolution_spec(),
            r.is_double_sided_spec() == self.is_double_sided_spec(),
    {
        Self { angle_resolution, ..self }
    }

    /// The builder of this zone's mesh.
    pub fn mesh(&self) -> (r: SphericalZoneMeshBuilder<F>)
        ensures
            (r.radius, r.angle_up, r.angle_down) == self.shape(),
            r.circle_resolution == self.circle_resolution_spec(),
            r.angle_resolution == self.angle_resolution_spec(),
            r.is_double_sided == self.is_double_sided_spec(),
    {
        SphericalZoneMeshBuilder {
            radius: self.radius,
            angle_up: self.angle_up,
            angle_down: self.angle_down,
            circle_resolution: self.circle_resolution,
            angle_resolution: self.angle_resolution,
            is_double_sided: self.is_double_sided,
        }
    }
}

/// How many sides a zone has.
pub open spec fn sides(double: bool) -> int {
    if double {
        2
    } else {
        1
    }
}

/// The number of vertices of a zone: a grid of `(c + 1) * (a + 1)` per side.
pub open spec fn zone_vertex_count(c: int, a: int, double: bool) -> int {
    (c + 1) * (a + 1) * sides(double)
}

/// The number of indices of a zone: two triangles per cell per side.
pub open spec fn zone_index_count(c: int, a: int, double: bool) -> int {
    c * a * 6 * sides(double)
}

/// The `m`-th index (of six) of cell (`i`, `j`) of the outer side; vertex
/// `i * (a + 1) + j` is at slice `i`, ring `j`.
pub open spec fn zone_outer(a: int, i: int, j: int, m: int) -> int {
    let idx0 = i * (a + 1) + j;
    let idx1 = (i + 1) * (a + 1) + j;
    let idx2 = (i + 1) * (a + 1) + j + 1;
    let idx3 = i * (a + 1) + j + 1;
    if m == 0 {
        idx0
    } else if m == 1 {
        idx2
    } else if m == 2 {
        idx1
    } else if m == 3 {
        idx0
    } else if m == 4 {
        idx3
    } else {
        idx2
    }
}

/// The `m`-th index of cell (`i`, `j`) of the inner side, whose vertices
/// follow the outer ones (from `offset` on) and whose winding is reversed.
pub open spec fn zone_inner(a: int, i: int, j: int, m: int, offset: int) -> int {
    let idx0 = i * (a + 1) + j + offset;
    let idx1 = (i + 1) * (a + 1) + j + offset;
    let idx2 = (i + 1) * (a + 1) + j + 1 + offset;
    let idx3 = i * (a + 1) + j + 1 + offset;
    if m == 0 {
        idx0
    } else if m == 1 {
        idx1
    } else if m == 2 {
        idx2
    } else if m == 3 {
        idx0
    } else if m == 4 {
        idx2
    } else {
        idx3
    }
}

/// The vertex and index counts of a zone fit in 32 bits.
pub open spec fn zone_fits(c: int, a: int, double: bool) -> bool {
    zone_vertex_count(c, a, double) <= u32::MAX && zone_index_count(c, a, double) <= u32::MAX
}

proof fn lemma_cell_bounds(c: int, a: int, i: int, j: int)
    by (nonlinear_arith)
    requires
        0 <= i < c,
        0 <= j < a,
    ensures
        0 <= i * (a + 1),
        i * (a + 1) <= (i + 1) * (a + 1),
        0 <= i * (a + 1) + j,
        (i + 1) * (a + 1) + j + 1 <= (c + 1) * (a + 1) - 1,
        i * a + j < c * a,
        6 * (i * a + j) + 6 == 6 * (i * a + (j + 1)),
{
}

proof fn lemma_earlier_cell(a: int, i2: int, j2: int, i: int)
    by (nonlinear_arith)
    requires
        0 <= i2 < i,
        0 <= j2 < a,
    ensures
        i2 * a + j2 + 1 <= i * a,
{
}

proof fn lemma_row_step(a: int, i: int)
    by (nonlinear_arith)
    ensures
        i * a + a == (i + 1) * a,
{
}

proof fn lemma_counts(c: int, a: int, double: bool)
    by (nonlinear_arith)
    requires
        0 <= c,
        0 <= a,
    ensures
        c + 1 <= (c + 1) * (a + 1),
        a + 1 <= (c + 1) * (a + 1),
        (c + 1) * (a + 1) <= zone_vertex_count(c, a, double),
        6 * (c * a) <= zone_index_count(c, a, double),
        double ==> zone_vertex_count(c, a, double) == 2 * ((c + 1) * (a + 1)),
        double ==> zone_index_count(c, a, double) == 2 * (6 * (c * a)),
        !double ==> zone_index_count(c, a, double) == 6 * (c * a),
        0 <= c * a,
        c * a * 6 == 6 * (c * a),
{
}

impl<F> SphericalZoneMeshBuilder<F> {
    /// The number of vertices.
    pub fn vertex_count(&self) -> (r: u32)
        requires
            zone_fits(self.circle_resolution as int, self.angle_resolution as int, self.is_double_sided),
        ensures
            r == zone_vertex_count(self.circle_resolution as int, self.angle_resolution as int, self.is_double_sided),
    {
        let c = self.circle_resolution;
        let a = self.angle_resolution;
        proof {
            lemma_counts(c as int, a as int, self.is_double_sided);
            assert((c + 1) * (a + 1) <= u32::MAX);
        }
        (c + 1) * (a + 1) * if self.is_double_sided {
            2
        } else {
            1
        }
    }

    /// Appends the triangles of one side; `inner` chooses the reversed
    /// winding and the offset of the inner vertices.
    fn push_side(&self, indices: &mut Vec<u32>, inner: bool, offset: u32)
        requires
            zone_fits(self.circle_resolution as int, self.angle_resolution as int, self.is_double_sided),
            inner ==> self.is_double_sided,
            inner ==> offset == (self.circle_resolution + 1) * (self.angle_resolution + 1),
            !inner ==> offset == 0,
            forall|k: int| 0 <= k < old(indices)@.len() ==> #[trigger] old(indices)@[k] < zone_vertex_count(
                self.circle_resolution as int,
                self.angle_resolution as int,
                self.is_double_sided,
            ),
        ensures
            final(indices)@.len() == old(indices)@.len() + 6 * (self.circle_resolution * self.angle_resolution),
            forall|k: int| 0 <= k < old(indices)@.len() ==> #[trigger] final(indices)@[k] == old(indices)@[k],
            forall|i: int, j: int, m: int|
                0 <= i < self.circle_resolution && 0 <= j < self.angle_resolution && 0 <= m < 6 ==> #[trigger] final(indices)@[old(indices)@.len() + 6 * (i * self.angle_resolution + j) + m] == if inner {
                    zone_inner(self.angle_resolution as int, i, j, m, offset as int)
                } else {
                    zone_outer(self.angle_resolution as int, i, j, m)
                },
            forall|k: int| 0 <= k < final(indices)@.len() ==> #[trigger] final(indices)@[k] < zone_vertex_count(
                self.circle_resolution as int,
                self.angle_resolution as int,
                self.is_double_sided,
            ),
    {
        let c = self.circle_resolution;
        let a = self.angle_resolution;
        let ghost total = zone_vertex_count(c as int, a as int, self.is_double_sided);
        let ghost start = indices@;
        let ghost base = start.len() as int;
        proof {
            lemma_counts(c as int, a as int, self.is_double_sided);
        }
        let mut i: u32 = 0;
        while i < c
            invariant
                c == self.circle_resolution,
                a == self.angle_resolution,
                total == zone_vertex_count(c as int, a as int, self.is_double_sided),
                (c + 1) * (a + 1) <= total,
                a + 1 <= total,
                inner ==> total == 2 * ((c + 1) * (a + 1)),
                inner ==> offset == (c + 1) * (a + 1),
                !inner ==> offset == 0,
                total <= u32::MAX,
                i <= c,
                base == start.len(),
                indices@.len() == base + 6 * (i * a),
                forall|k: int| 0 <= k < base ==> #[trigger] indices@[k] == start[k],
                forall|i2: int, j: int, m: int|
                    0 <= i2 < i && 0 <= j < a && 0 <= m < 6 ==> #[trigger] indices@[base + 6 * (i2 * a + j) + m] == if inner {
                        zone_inner(a as int, i2, j, m, offset as int)
                    } else {
                        zone_outer(a as int, i2, j, m)
                    },
                forall|k: int| 0 <= k < indices@.len() ==> #[trigger] indices@[k] < total,
            decreases c - i,
        {
            let mut j: u32 = 0;
            while j < a
                invariant
                    c == self.circle_resolution,
                    a == self.angle_resolution,
                    total == zone_vertex_count(c as int, a as int, self.is_double_sided),
                    (c + 1) * (a + 1) <= total,
                    inner ==> total == 2 * ((c + 1) * (a + 1)),
                    inner ==> offset == (c + 1) * (a + 1),
                    !inner ==> offset == 0,
                    total <= u32::MAX,
                    i < c,
                    j <= a,
                    a + 1 <= total,
                    base == start.len(),
                    indices@.len() == base + 6 * (i * a + j),
                    forall|k: int| 0 <= k < base ==> #[trigger] indices@[k] == start[k],
                    forall|i2: int, j2: int, m: int|
                        0 <= i2 < i && 0 <= j2 < a && 0 <= m < 6 ==> #[trigger] indices@[base + 6 * (i2 * a + j2) + m] == if inner {
                            zone_inner(a as int, i2, j2, m, offset as int)
                        } else {
                            zone_outer(a as int, i2, j2, m)
                        },
                    forall|j2: int, m: int|
                        0 <= j2 < j && 0 <= m < 6 ==> #[trigger] indices@[base + 6 * (i * a + j2) + m] == if inner {
                            zone_inner(a as int, i as int, j2, m, offset as int)
                        } else {
                            zone_outer(a as int, i as int, j2, m)
                        },
                    forall|k: int| 0 <= k < indices@.len() ==> #[trigger] indices@[k] < total,
                decreases a - j,
            {
                proof {
                    lemma_cell_bounds(c as int, a as int, i as int, j as int);
                }
                proof {
                    assert(i * (a + 1) + j + 1 + offset < total);
                    assert((i + 1) * (a + 1) + j + 1 + offset < total);
                }
                let idx0 = i * (a + 1) + j + offset;
                let idx1 = (i + 1) * (a + 1) + j + offset;
                let idx2 = (i + 1) * (a + 1) + j + 1 + offset;
                let idx3 = i * (a + 1) + j + 1 + offset;
                let ghost len0 = indices@.len() as int;
                let ghost before_cell = indices@;
                if inner {
                    indices.push(idx0);
                    indices.push(idx1);
                    indices.push(idx2);
                    indices.push(idx0);
                    indices.push(idx2);
                    indices.push(idx3);
                } else {
                    indices.push(idx0);
                    indices.push(idx2);
                    indices.push(idx1);
                    indices.push(idx0);
                    indices.push(idx3);
                    indices.push(idx2);
                }
                proof {
                    assert(len0 == base + 6 * (i * a + j));
                    assert forall|i2: int, j2: int, m: int|
                        0 <= i2 < i && 0 <= j2 < a && 0 <= m < 6 implies #[trigger] indices@[base + 6 * (i2 * a + j2) + m] == if inner {
                            zone_inner(a as int, i2, j2, m, offset as int)
                        } else {
                            zone_outer(a as int, i2, j2, m)
                        } by {
                        lemma_earlier_cell(a as int, i2, j2, i as int);
                        lemma_cell_bounds(c as int, a as int, i2, j2);
                        assert(indices@[base + 6 * (i2 * a + j2) + m] == before_cell[base + 6 * (i2 * a + j2) + m]);
                    }
                    assert forall|j2: int, m: int|
                        0 <= j2 < j + 1 && 0 <= m < 6 implies #[trigger] indices@[base + 6 * (i * a + j2) + m] == if inner {
                            zone_inner(a as int, i as int, j2, m, offset as int)
                        } else {
                            zone_outer(a as int, i as int, j2, m)
                        } by {
                        if j2 == j {
                            assert(indices@[base + 6 * (i * a + j2) + m] == indices@[len0 + m]);
                        } else {
                            assert(indices@[base + 6 * (i * a + j2) + m] == before_cell[base + 6 * (i * a + j2) + m]);
                        }
                    }
                }
                j = j + 1;
            }
            proof {
                lemma_row_step(a as int, i as int);
                assert forall|i2: int, j2: int, m: int|
                    0 <= i2 < i + 1 && 0 <= j2 < a && 0 <= m < 6 implies #[trigger] indices@[base + 6 * (i2 * a + j2) + m] == if inner {
                        zone_inner(a as int, i2, j2, m, offset as int)
                    } else {
                        zone_outer(a as int, i2, j2, m)
                    } by {
                }
            }
            i = i + 1;
        }
    }

    /// The triangle list of the zone: when double sided, the inner side
    /// first (so that it is drawn behind the outer one), then the outer side.
    pub fn indices(&self) -> (r: Vec<u32>)
        requires
            zone_fits(self.circle_resolution as int, self.angle_resolution as int, self.is_double_sided),
        ensures
            r@.len() == zone_index_count(self.circle_resolution as int, self.angle_resolution as int, self.is_double_sided),
            self.is_double_sided ==> forall|i: int, j: int, m: int|
                0 <= i < self.circle_resolution && 0 <= j < self.angle_resolution && 0 <= m < 6 ==> #[trigger] r@[6 * (i
                    * self.angle_resolution + j) + m] == zone_inner(
                    self.angle_resolution as int,
                    i,
                    j,
                    m,
                    (self.circle_resolution + 1) * (self.angle_resolution + 1),
                ),
            forall|i: int, j: int, m: int|
                0 <= i < self.circle_resolution && 0 <= j < self.angle_resolution && 0 <= m < 6 ==> #[trigger] r@[(sides(
                    self.is_double_sided,
                ) - 1) * 6 * (self.circle_resolution * self.angle_resolution) + 6 * (i * self.angle_resolution + j)
                    + m] == zone_outer(self.angle_resolution as int, i, j, m),
            forall|k: int| 0 <= k < r@.len() ==> #[trigger] r@[k] < zone_vertex_count(
                self.circle_resolution as int,
                self.angle_resolution as int,
                self.is_double_sided,
            ),
    {
        let c = self.circle_resolution;
        let a = self.angle_resolution;
        proof {
            lemma_counts(c as int, a as int, self.is_double_sided);
        }
        let mut indices: Vec<u32> = Vec::new();
        if self.is_double_sided {
            let offset = (c + 1) * (a + 1);
            self.push_side(&mut indices, true, offset);
            let ghost inner_part = indices@;
            self.push_side(&mut indices, false, 0);
            proof {
                assert forall|i: int, j: int, m: int|
                    0 <= i < c && 0 <= j < a && 0 <= m < 6 implies #[trigger] indices@[(sides(self.is_double_sided) - 1) * 6 * (c * a) + 6 * (i * a + j) + m]
                        == zone_outer(a as int, i, j, m) by {
                    assert((sides(self.is_double_sided) - 1) * 6 * (c * a) == 6 * (c * a)) by (nonlinear_arith)
                        requires
                            sides(self.is_double_sided) == 2;
                    assert(indices@[inner_part.len() + 6 * (i * a + j) + m] == zone_outer(a as int, i, j, m));
                }
                assert forall|i: int, j: int, m: int|
                    0 <= i < c && 0 <= j < a && 0 <= m < 6 implies #[trigger] indices@[6 * (i * a + j) + m] == zone_inner(
                        a as int,
                        i,
                        j,
                        m,
                        (c + 1) * (a + 1),
                    ) by {
                    lemma_cell_bounds(c as int, a as int, i, j);
                    assert(indices@[6 * (i * a + j) + m] == inner_part[0 + 6 * (i * a + j) + m]);
                }
            }
        } else {
            self.push_side(&mut indices, false, 0);
            proof {
                assert forall|i: int, j: int, m: int|
                    0 <= i < c && 0 <= j < a && 0 <= m < 6 implies #[trigger] indices@[(sides(self.is_double_sided) - 1) * 6 * (c * a) + 6 * (i * a + j) + m]
                        == zone_outer(a as int, i, j, m) by {
                    assert(sides(self.is_double_sided) == 1);
                    assert((sides(self.is_double_sided) - 1) * 6 * (c * a) == 0) by (nonlinear_arith)
                        requires
                            sides(self.is_double_sided) == 1;
                    assert(indices@[0 + 6 * (i * a + j) + m] == zone_outer(a as int, i, j, m));
                }
            }
        }
        indices
    }
}

} // verus!
