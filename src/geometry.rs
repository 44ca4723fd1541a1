//! Geometry builder: turns vertex positions and face triples into a validated
//! triangle mesh.
use vstd::prelude::*;

verus! {

/// Largest magnitude of a vertex coordinate that the builder accepts. Within
/// it the orientation test is computed exactly in 128-bit integers.
pub const COORD_LIMIT: i32 = 16_777_216;

/// A point in fixed-point scene coordinates.
#[derive(Clone, Copy, Debug, PartialEq, Eq, Structural)]
pub struct Point3 {
    pub x: i32,
    pub y: i32,
    pub z: i32,
}

impl Point3 {
    pub fn new(x: i32, y: i32, z: i32) -> (p: Point3)
        ensures
            p == (Point3 { x, y, z }),
    {
        Point3 { x, y, z }
    }

    pub open spec fn in_range(self) -> bool {
        &&& -COORD_LIMIT <= self.x <= COORD_LIMIT
        &&& -COORD_LIMIT <= self.y <= COORD_LIMIT
        &&& -COORD_LIMIT <= self.z <= COORD_LIMIT
    }

    pub fn is_in_range(&self) -> (r: bool)
        ensures
            r == self.in_range(),
    {
        -COORD_LIMIT <= self.x && self.x <= COORD_LIMIT && -COORD_LIMIT <= self.y && self.y
            <= COORD_LIMIT && -COORD_LIMIT <= self.z && self.z <= COORD_LIMIT
    }
}

/// One triangle, as three positions in the vertex buffer. The order of the
/// three gives the face's normal by the right-hand rule.
#[derive(Clone, Copy, Debug, PartialEq, Eq, Structural)]
pub struct Face {
    pub a: u32,
    pub b: u32,
    pub c: u32,
}

impl Face {
    pub fn new(a: u32, b: u32, c: u32) -> (f: Face)
        ensures
            f == (Face { a, b, c }),
    {
        Face { a, b, c }
    }
}

/// What the builder does about faces whose normal does not point away from
/// the solid's centroid.
#[derive(Clone, Copy, Debug, PartialEq, Eq, Structural)]
pub enum WindingCheck {
    /// Faces are taken as given.
    Unchecked,
    /// A face that does not point outward is an error.
    Reject,
    /// A face that points inward is flipped; one whose plane passes through
    /// the centroid is an error.
    Correct,
}

#[derive(Clone, Copy, Debug, PartialEq, Eq, Structural)]
pub enum GeometryError {
    NoVertices,
    CoordinateOutOfRange { vertex: usize },
    InvalidIndex { face: usize, index: u32 },
    DegenerateFace { face: usize },
    InconsistentWinding { face: usize },
}

#[derive(Clone, Copy, Debug, PartialEq, Eq, Structural)]
pub enum Topology {
    TriangleList,
}

pub type Vec3 = (int, int, int);

pub open spec fn diff(p: Point3, q: Point3) -> Vec3 {
    (p.x - q.x, p.y - q.y, p.z - q.z)
}

pub open spec fn cross(u: Vec3, v: Vec3) -> Vec3 {
    (u.1 * v.2 - u.2 * v.1, u.2 * v.0 - u.0 * v.2, u.0 * v.1 - u.1 * v.0)
}

pub open spec fn dot(u: Vec3, v: Vec3) -> int {
    u.0 * v.0 + u.1 * v.1 + u.2 * v.2
}

/// Sum of all positions, coordinate by coordinate.
pub open spec fn coord_sum(s: Seq<Point3>) -> Vec3
    decreases s.len(),
{
    if s.len() == 0 {
        (0, 0, 0)
    } else {
        let r = coord_sum(s.drop_last());
        (r.0 + s.last().x, r.1 + s.last().y, r.2 + s.last().z)
    }
}

/// The face's normal by the right-hand rule (not normalised).
pub open spec fn face_normal(pos: Seq<Point3>, f: Face) -> Vec3 {
    cross(diff(pos[f.b as int], pos[f.a as int]), diff(pos[f.c as int], pos[f.a as int]))
}

/// `3n` times the offset from the solid's centroid to the face's centroid,
/// where `n` is the number of vertices.
pub open spec fn centroid_offset(pos: Seq<Point3>, f: Face) -> Vec3 {
    let s = coord_sum(pos);
    let n = pos.len() as int;
    let (p, q, r) = (pos[f.a as int], pos[f.b as int], pos[f.c as int]);
    (n * (p.x + q.x + r.x) - 3 * s.0, n * (p.y + q.y + r.y) - 3 * s.1, n * (p.z + q.z + r.z) - 3
        * s.2)
}

/// Positive exactly when the face's normal points away from the centroid.
pub open spec fn outwardness(pos: Seq<Point3>, f: Face) -> int {
    dot(face_normal(pos, f), centroid_offset(pos, f))
}

pub open spec fn index_fault(n: int, f: Face) -> Option<u32> {
    if f.a >= n {
        Some(f.a)
    } else if f.b >= n {
        Some(f.b)
    } else if f.c >= n {
        Some(f.c)
    } else {
        None
    }
}

pub open spec fn is_degenerate(f: Face) -> bool {
    f.a == f.b || f.b == f.c || f.a == f.c
}

/// The error that face `f`, at position `i` of the face list, raises.
pub open spec fn face_error(pos: Seq<Point3>, f: Face, i: usize, mode: WindingCheck) -> Option<
    GeometryError,
> {
    if index_fault(pos.len() as int, f) is Some {
        Some(GeometryError::InvalidIndex { face: i, index: index_fault(pos.len() as int, f)->0 })
    } else if is_degenerate(f) {
        Some(GeometryError::DegenerateFace { face: i })
    } else {
        match mode {
            WindingCheck::Unchecked => None,
            WindingCheck::Reject => if outwardness(pos, f) <= 0 {
                Some(GeometryError::InconsistentWinding { face: i })
            } else {
                None
            },
            WindingCheck::Correct => if outwardness(pos, f) == 0 {
                Some(GeometryError::InconsistentWinding { face: i })
            } else {
                None
            },
        }
    }
}

/// The face as it is stored: flipped where the mode corrects an inward face.
pub open spec fn oriented(pos: Seq<Point3>, f: Face, mode: WindingCheck) -> Face {
    if mode == WindingCheck::Correct && outwardness(pos, f) < 0 {
        Face { a: f.a, b: f.c, c: f.b }
    } else {
        f
    }
}

/// The index buffer for the faces: three entries per face, in order.
pub open spec fn index_buffer(pos: Seq<Point3>, faces: Seq<Face>, mode: WindingCheck) -> Seq<u32>
    decreases faces.len(),
{
    if faces.len() == 0 {
        Seq::empty()
    } else {
        let o = oriented(pos, faces.last(), mode);
        index_buffer(pos, faces.drop_last(), mode) + seq![o.a, o.b, o.c]
    }
}

pub open spec fn vertices_valid(pos: Seq<Point3>) -> bool {
    pos.len() > 0 && forall|v: int| 0 <= v < pos.len() ==> (#[trigger] pos[v]).in_range()
}

pub open spec fn first_out_of_range(pos: Seq<Point3>, v: int) -> bool {
    &&& 0 <= v < pos.len()
    &&& !pos[v].in_range()
    &&& forall|u: int| 0 <= u < v ==> (#[trigger] pos[u]).in_range()
}

pub open spec fn faces_valid(pos: Seq<Point3>, faces: Seq<Face>, mode: WindingCheck) -> bool {
    forall|i: int| 0 <= i < faces.len() ==> face_error(pos, #[trigger] faces[i], i as usize, mode) is None
}

pub open spec fn first_face_error(
    pos: Seq<Point3>,
    faces: Seq<Face>,
    mode: WindingCheck,
    i: int,
    e: GeometryError,
) -> bool {
    &&& 0 <= i < faces.len()
    &&& face_error(pos, faces[i], i as usize, mode) == Some(e)
    &&& forall|j: int| 0 <= j < i ==> face_error(pos, #[trigger] faces[j], j as usize, mode) is None
}

/// The error that building from `pos` and `faces` reports: the first fault
/// found, checking the vertex buffer first and then the faces in order.
pub open spec fn build_error(
    pos: Seq<Point3>,
    faces: Seq<Face>,
    mode: WindingCheck,
    e: GeometryError,
) -> bool {
    ||| pos.len() == 0 && e == GeometryError::NoVertices
    ||| exists|v: int| first_out_of_range(pos, v) && e == (GeometryError::CoordinateOutOfRange { vertex: v as usize })
    ||| vertices_valid(pos) && exists|i: int| first_face_error(pos, faces, mode, i, e)
}

pub open spec fn distinct_triple(s: Seq<u32>, t: int) -> bool {
    s[3 * t] != s[3 * t + 1] && s[3 * t + 1] != s[3 * t + 2] && s[3 * t] != s[3 * t + 2]
}

/// An immutable triangle mesh. Built only by `build_polytope`.
pub struct MeshAsset {
    positions: Vec<Point3>,
    indices: Vec<u32>,
    topology: Topology,
}

impl MeshAsset {
    pub closed spec fn spec_positions(&self) -> Seq<Point3> {
        self.positions@
    }

    pub closed spec fn spec_indices(&self) -> Seq<u32> {
        self.indices@
    }

    pub closed spec fn spec_topology(&self) -> Topology {
        self.topology
    }

    /// Non-empty vertex buffer; whole triples; every index names a vertex;
    /// no triple repeats an index.
    pub open spec fn well_formed(&self) -> bool {
        &&& self.spec_positions().len() > 0
        &&& self.spec_indices().len() % 3 == 0
        &&& forall|k: int|
            0 <= k < self.spec_indices().len() ==> #[trigger] self.spec_indices()[k]
                < self.spec_positions().len()
        &&& forall|t: int|
            0 <= t < self.spec_indices().len() / 3 ==> #[trigger] distinct_triple(
                self.spec_indices(),
                t,
            )
    }

    pub fn positions(&self) -> (r: &Vec<Point3>)
        ensures
            r@ == self.spec_positions(),
    {
        &self.positions
    }

    pub fn indices(&self) -> (r: &Vec<u32>)
        ensures
            r@ == self.spec_indices(),
    {
        &self.indices
    }

    pub fn topology(&self) -> (r: Topology)
        ensures
            r == self.spec_topology(),
    {
        self.topology
    }

    pub fn vertex_count(&self) -> (r: usize)
        ensures
            r == self.spec_positions().len(),
    {
        self.positions.len()
    }

    pub fn face_count(&self) -> (r: usize)
        ensures
            r == self.spec_indices().len() / 3,
    {
        self.indices.len() / 3
    }

    /// The `t`-th triangle of the index buffer.
    pub fn face(&self, t: usize) -> (f: Face)
        requires
            self.well_formed(),
            t < self.spec_indices().len() / 3,
        ensures
            f.a == self.spec_indices()[3 * t],
            f.b == self.spec_indices()[3 * t + 1],
            f.c == self.spec_indices()[3 * t + 2],
    {
        let len = self.indices.len();
        assert(3 * t + 2 < len);
        let k: usize = 3 * t;
        Face { a: self.indices[k], b: self.indices[k + 1], c: self.indices[k + 2] }
    }
}

proof fn lemma_mul_bound(a: int, b: int, x: int, y: int)
    requires
        0 <= x,
        0 <= y,
        -x <= a <= x,
        -y <= b <= y,
    ensures
        -(x * y) <= a * b <= x * y,
{
    assert(-(x * y) <= a * b <= x * y) by (nonlinear_arith)
        requires
            0 <= x,
            0 <= y,
            -x <= a <= x,
            -y <= b <= y,
    ;
}

proof fn lemma_coord_sum_bound(s: Seq<Point3>)
    requires
        forall|v: int| 0 <= v < s.len() ==> (#[trigger] s[v]).in_range(),
    ensures
        -(s.len() * COORD_LIMIT) <= coord_sum(s).0 <= s.len() * COORD_LIMIT,
        -(s.len() * COORD_LIMIT) <= coord_sum(s).1 <= s.len() * COORD_LIMIT,
        -(s.len() * COORD_LIMIT) <= coord_sum(s).2 <= s.len() * COORD_LIMIT,
    decreases s.len(),
{
    if s.len() > 0 {
        let t = s.drop_last();
        assert forall|v: int| 0 <= v < t.len() implies (#[trigger] t[v]).in_range() by {
            assert(t[v] == s[v]);
        }
        lemma_coord_sum_bound(t);
        assert(s.last() == s[s.len() - 1]);
        assert(s.len() * COORD_LIMIT == t.len() * COORD_LIMIT + COORD_LIMIT) by (nonlinear_arith)
            requires
                s.len() == t.len() + 1,
        ;
    }
}

/// Computes `outwardness` exactly; `s` is the sum of all positions.
fn face_outwardness(positions: &Vec<Point3>, f: Face, s: (i64, i64, i64)) -> (r: i128)
    requires
        vertices_valid(positions@),
        positions@.len() <= u32::MAX,
        f.a < positions@.len(),
        f.b < positions@.len(),
        f.c < positions@.len(),
        (s.0 as int, s.1 as int, s.2 as int) == coord_sum(positions@),
    ensures
        r == outwardness(positions@, f),
{
    let p = positions[f.a as usize];
    let q = positions[f.b as usize];
    let w = positions[f.c as usize];
    assert(p.in_range() && q.in_range() && w.in_range());
    let ux = q.x as i128 - p.x as i128;
    let uy = q.y as i128 - p.y as i128;
    let uz = q.z as i128 - p.z as i128;
    let vx = w.x as i128 - p.x as i128;
    let vy = w.y as i128 - p.y as i128;
    let vz = w.z as i128 - p.z as i128;
    let ghost d: int = 2 * COORD_LIMIT;
    proof {
        lemma_mul_bound(uy as int, vz as int, d, d);
        lemma_mul_bound(uz as int, vy as int, d, d);
        lemma_mul_bound(uz as int, vx as int, d, d);
        lemma_mul_bound(ux as int, vz as int, d, d);
        lemma_mul_bound(ux as int, vy as int, d, d);
        lemma_mul_bound(uy as int, vx as int, d, d);
    }
    let nx = uy * vz - uz * vy;
    let ny = uz * vx - ux * vz;
    let nz = ux * vy - uy * vx;
    let n = positions.len() as i128;
    let ghost m: int = 3 * COORD_LIMIT;
    let ghost big: int = u32::MAX as int;
    proof {
        lemma_coord_sum_bound(positions@);
        lemma_mul_bound(n as int, p.x + q.x + w.x, big, m);
        lemma_mul_bound(n as int, p.y + q.y + w.y, big, m);
        lemma_mul_bound(n as int, p.z + q.z + w.z, big, m);
        lemma_mul_bound(n as int, COORD_LIMIT as int, big, COORD_LIMIT as int);
    }
    let cx = n * (p.x as i128 + q.x as i128 + w.x as i128) - 3 * (s.0 as i128);
    let cy = n * (p.y as i128 + q.y as i128 + w.y as i128) - 3 * (s.1 as i128);
    let cz = n * (p.z as i128 + q.z as i128 + w.z as i128) - 3 * (s.2 as i128);
    let ghost nb: int = 2 * d * d;
    let ghost cb: int = 2 * big * m;
    assert(-nb <= nx <= nb);
    assert(-cb <= cx <= cb);
    assert(-nb <= ny <= nb && -nb <= nz <= nb);
    assert(-cb <= cy <= cb && -cb <= cz <= cb);
    assert(nb == 0x8_0000_0000_0000);
    assert(cb == 6 * 0xffff_ffff * 0x100_0000);
    assert(3 * (nb * cb) < 0x7fff_ffff_ffff_ffff_ffff_ffff_ffff_ffff) by (nonlinear_arith)
        requires
            nb == 0x8_0000_0000_0000,
            cb == 6 * 0xffff_ffff * 0x100_0000,
    ;
    proof {
        lemma_mul_bound(nx as int, cx as int, nb, cb);
        lemma_mul_bound(ny as int, cy as int, nb, cb);
        lemma_mul_bound(nz as int, cz as int, nb, cb);
    }
    nx * cx + ny * cy + nz * cz
}

/// Builds a triangle mesh from vertex positions and faces, validating every
/// face and, as `mode` asks, its orientation relative to the centroid.
pub fn build_polytope(positions: Vec<Point3>, faces: &Vec<Face>, mode: WindingCheck) -> (r: Result<
    MeshAsset,
    GeometryError,
>)
    requires
        positions@.len() <= u32::MAX,
    ensures
        match r {
            Ok(m) => {
                &&& vertices_valid(positions@)
                &&& faces_valid(positions@, faces@, mode)
                &&& m.spec_positions() == positions@
                &&& m.spec_indices() == index_buffer(positions@, faces@, mode)
                &&& m.spec_topology() == Topology::TriangleList
                &&& m.well_formed()
            },
            Err(e) => build_error(positions@, faces@, mode, e),
        },
        vertices_valid(positions@) && faces_valid(positions@, faces@, mode) ==> r is Ok,
{
    let ghost pos = positions@;
    if positions.len() == 0 {
        return Err(GeometryError::NoVertices);
    }
    let mut sx: i64 = 0;
    let mut sy: i64 = 0;
    let mut sz: i64 = 0;
    let mut v: usize = 0;
    while v < positions.len()
        invariant
            pos == positions@,
            pos.len() <= u32::MAX,
            0 <= v <= pos.len(),
            forall|u: int| 0 <= u < v ==> (#[trigger] pos[u]).in_range(),
            (sx as int, sy as int, sz as int) == coord_sum(pos.subrange(0, v as int)),
            -(v * COORD_LIMIT) <= sx <= v * COORD_LIMIT,
            -(v * COORD_LIMIT) <= sy <= v * COORD_LIMIT,
            -(v * COORD_LIMIT) <= sz <= v * COORD_LIMIT,
        decreases pos.len() - v,
    {
        let p = positions[v];
        if !p.is_in_range() {
            assert(first_out_of_range(pos, v as int));
            return Err(GeometryError::CoordinateOutOfRange { vertex: v });
        }
        proof {
            assert(pos.subrange(0, v + 1).drop_last() =~= pos.subrange(0, v as int));
            assert((v + 1) * COORD_LIMIT == v * COORD_LIMIT + COORD_LIMIT) by (nonlinear_arith);
            assert(v * COORD_LIMIT <= u32::MAX * COORD_LIMIT) by (nonlinear_arith)
                requires
                    v <= u32::MAX,
            ;
        }
        sx = sx + p.x as i64;
        sy = sy + p.y as i64;
        sz = sz + p.z as i64;
        v = v + 1;
    }
    assert(pos.subrange(0, pos.len() as int) =~= pos);
    let n = positions.len();
    let mut indices: Vec<u32> = Vec::new();
    let mut i: usize = 0;
    while i < faces.len()
        invariant
            pos == positions@,
            pos.len() == n,
            0 < n <= u32::MAX,
            vertices_valid(pos),
            (sx as int, sy as int, sz as int) == coord_sum(pos),
            0 <= i <= faces@.len(),
            forall|j: int| 0 <= j < i ==> face_error(pos, #[trigger] faces@[j], j as usize, mode) is None,
            indices@ == index_buffer(pos, faces@.subrange(0, i as int), mode),
            indices@.len() == 3 * i,
            forall|k: int| 0 <= k < indices@.len() ==> #[trigger] indices@[k] < n,
            forall|t: int| 0 <= t < i ==> #[trigger] distinct_triple(indices@, t),
        decreases faces@.len() - i,
    {
        let f = faces[i];
        let ghost fi = faces@[i as int];
        if f.a as usize >= n {
            assert(first_face_error(pos, faces@, mode, i as int, GeometryError::InvalidIndex { face: i, index: f.a }));
            return Err(GeometryError::InvalidIndex { face: i, index: f.a });
        }
        if f.b as usize >= n {
            assert(first_face_error(pos, faces@, mode, i as int, GeometryError::InvalidIndex { face: i, index: f.b }));
            return Err(GeometryError::InvalidIndex { face: i, index: f.b });
        }
        if f.c as usize >= n {
            assert(first_face_error(pos, faces@, mode, i as int, GeometryError::InvalidIndex { face: i, index: f.c }));
            return Err(GeometryError::InvalidIndex { face: i, index: f.c });
        }
        if f.a == f.b || f.b == f.c || f.a == f.c {
            assert(first_face_error(pos, faces@, mode, i as int, GeometryError::DegenerateFace { face: i }));
            return Err(GeometryError::DegenerateFace { face: i });
        }
        let mut o = f;
        match mode {
            WindingCheck::Unchecked => {},
            WindingCheck::Reject => {
                let w = face_outwardness(&positions, f, (sx, sy, sz));
                if w <= 0 {
                    assert(first_face_error(pos, faces@, mode, i as int, GeometryError::InconsistentWinding { face: i }));
                    return Err(GeometryError::InconsistentWinding { face: i });
                }
            },
            WindingCheck::Correct => {
                let w = face_outwardness(&positions, f, (sx, sy, sz));
                if w == 0 {
                    assert(first_face_error(pos, faces@, mode, i as int, GeometryError::InconsistentWinding { face: i }));
                    return Err(GeometryError::InconsistentWinding { face: i });
                }
                if w < 0 {
                    o = Face { a: f.a, b: f.c, c: f.b };
                }
            },
        }
        assert(o == oriented(pos, fi, mode));
        let ghost old_indices = indices@;
        indices.push(o.a);
        indices.push(o.b);
        indices.push(o.c);
        proof {
            let pre = faces@.subrange(0, i + 1);
            assert(pre.drop_last() =~= faces@.subrange(0, i as int));
            assert(pre.last() == fi);
            assert(indices@ =~= old_indices + seq![o.a, o.b, o.c]);
            assert forall|t: int| 0 <= t < i + 1 implies #[trigger] distinct_triple(indices@, t) by {
                if t < i {
                    assert(distinct_triple(old_indices, t));
                    assert(indices@[3 * t] == old_indices[3 * t]);
                    assert(indices@[3 * t + 1] == old_indices[3 * t + 1]);
                    assert(indices@[3 * t + 2] == old_indices[3 * t + 2]);
                }
            }
        }
        i = i + 1;
    }
    assert(faces@.subrange(0, faces@.len() as int) =~= faces@);
    let m = MeshAsset { positions, indices, topology: Topology::TriangleList };
    assert(m.spec_indices().len() / 3 == faces@.len());
    Ok(m)
}

} // verus!
