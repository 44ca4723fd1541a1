use skill_sphere::geometry::{
    build_polytope, Face, GeometryError, MeshAsset, Point3, Topology, WindingCheck, COORD_LIMIT,
};

const SCALE: f64 = 1_000_000.0;

fn fixed(v: f64) -> i32 {
    (v * SCALE).round() as i32
}

/// The tetrahedron of edge length 1 with the apex on the y axis.
fn tetra_positions() -> Vec<Point3> {
    let l: f64 = 1.0;
    let s3 = 3.0_f64.sqrt();
    vec![
        Point3::new(0, fixed(l * (2.0_f64 / 3.0).sqrt()), 0),
        Point3::new(fixed(l / s3), 0, 0),
        Point3::new(0, fixed(-(1.0 / (2.0 * s3))), fixed(l / 2.0)),
        Point3::new(0, fixed(-(1.0 / (2.0 * s3))), fixed(-(l / 2.0))),
    ]
}

fn tetra_faces() -> Vec<Face> {
    vec![Face::new(0, 2, 1), Face::new(0, 3, 2), Face::new(0, 3, 1), Face::new(1, 2, 3)]
}

fn expect_err(r: Result<MeshAsset, GeometryError>) -> GeometryError {
    match r {
        Ok(_) => panic!("expected an error"),
        Err(e) => e,
    }
}

fn outwardness(pos: &[Point3], f: Face) -> i128 {
    let p = pos[f.a as usize];
    let q = pos[f.b as usize];
    let r = pos[f.c as usize];
    let u = [(q.x - p.x) as i128, (q.y - p.y) as i128, (q.z - p.z) as i128];
    let v = [(r.x - p.x) as i128, (r.y - p.y) as i128, (r.z - p.z) as i128];
    let n = [u[1] * v[2] - u[2] * v[1], u[2] * v[0] - u[0] * v[2], u[0] * v[1] - u[1] * v[0]];
    let count = pos.len() as i128;
    let mut sum = [0i128; 3];
    for s in pos {
        sum[0] += s.x as i128;
        sum[1] += s.y as i128;
        sum[2] += s.z as i128;
    }
    let c = [
        count * (p.x as i128 + q.x as i128 + r.x as i128) - 3 * sum[0],
        count * (p.y as i128 + q.y as i128 + r.y as i128) - 3 * sum[1],
        count * (p.z as i128 + q.z as i128 + r.z as i128) - 3 * sum[2],
    ];
    n[0] * c[0] + n[1] * c[1] + n[2] * c[2]
}

#[test]
fn tetrahedron_has_four_outward_faces() {
    let mesh = build_polytope(tetra_positions(), &tetra_faces(), WindingCheck::Correct).unwrap();
    assert_eq!(mesh.vertex_count(), 4);
    assert_eq!(mesh.face_count(), 4);
    assert_eq!(mesh.topology(), Topology::TriangleList);
    for t in 0..mesh.face_count() {
        assert!(outwardness(mesh.positions(), mesh.face(t)) > 0);
    }
    // The third face was listed inward and comes out flipped.
    assert_eq!(mesh.face(2), Face::new(0, 1, 3));
    assert_eq!(mesh.indices(), &vec![0, 2, 1, 0, 3, 2, 0, 1, 3, 1, 2, 3]);
}

#[test]
fn tetrahedron_centroid_test_in_floating_point() {
    let mesh = build_polytope(tetra_positions(), &tetra_faces(), WindingCheck::Correct).unwrap();
    let pos: Vec<[f64; 3]> =
        mesh.positions().iter().map(|p| [p.x as f64, p.y as f64, p.z as f64]).collect();
    let mut centroid = [0.0f64; 3];
    for p in &pos {
        for k in 0..3 {
            centroid[k] += p[k] / pos.len() as f64;
        }
    }
    for t in 0..mesh.face_count() {
        let f = mesh.face(t);
        let (a, b, c) = (pos[f.a as usize], pos[f.b as usize], pos[f.c as usize]);
        let u = [b[0] - a[0], b[1] - a[1], b[2] - a[2]];
        let v = [c[0] - a[0], c[1] - a[1], c[2] - a[2]];
        let n = [u[1] * v[2] - u[2] * v[1], u[2] * v[0] - u[0] * v[2], u[0] * v[1] - u[1] * v[0]];
        let fc = [(a[0] + b[0] + c[0]) / 3.0, (a[1] + b[1] + c[1]) / 3.0, (a[2] + b[2] + c[2]) / 3.0];
        let d = n[0] * (fc[0] - centroid[0]) + n[1] * (fc[1] - centroid[1]) + n[2] * (fc[2] - centroid[2]);
        assert!(d > 0.0);
    }
}

#[test]
fn inward_face_rejected_when_checking() {
    let e = expect_err(build_polytope(tetra_positions(), &tetra_faces(), WindingCheck::Reject));
    assert_eq!(e, GeometryError::InconsistentWinding { face: 2 });
}

#[test]
fn unchecked_build_keeps_faces_as_given() {
    let mesh = build_polytope(tetra_positions(), &tetra_faces(), WindingCheck::Unchecked).unwrap();
    assert_eq!(mesh.indices(), &vec![0, 2, 1, 0, 3, 2, 0, 3, 1, 1, 2, 3]);
    assert_eq!(mesh.positions(), &tetra_positions());
}

#[test]
fn degenerate_triple_rejected() {
    let faces = vec![Face::new(0, 0, 1)];
    let e = expect_err(build_polytope(tetra_positions(), &faces, WindingCheck::Unchecked));
    assert_eq!(e, GeometryError::DegenerateFace { face: 0 });
}

#[test]
fn degenerate_triple_rejected_after_valid_faces() {
    let faces = vec![Face::new(0, 2, 1), Face::new(1, 2, 1)];
    let e = expect_err(build_polytope(tetra_positions(), &faces, WindingCheck::Correct));
    assert_eq!(e, GeometryError::DegenerateFace { face: 1 });
}

#[test]
fn index_out_of_range_rejected() {
    let faces = vec![Face::new(0, 2, 1), Face::new(0, 7, 1)];
    let e = expect_err(build_polytope(tetra_positions(), &faces, WindingCheck::Unchecked));
    assert_eq!(e, GeometryError::InvalidIndex { face: 1, index: 7 });
}

#[test]
fn bad_index_reported_before_repeat() {
    let faces = vec![Face::new(4, 4, 1)];
    let e = expect_err(build_polytope(tetra_positions(), &faces, WindingCheck::Unchecked));
    assert_eq!(e, GeometryError::InvalidIndex { face: 0, index: 4 });
}

#[test]
fn empty_vertex_buffer_rejected() {
    let e = expect_err(build_polytope(Vec::new(), &Vec::new(), WindingCheck::Unchecked));
    assert_eq!(e, GeometryError::NoVertices);
}

#[test]
fn coordinate_beyond_limit_rejected() {
    let mut pos = tetra_positions();
    pos.push(Point3::new(0, COORD_LIMIT + 1, 0));
    pos.push(Point3::new(0, -COORD_LIMIT - 1, 0));
    let e = expect_err(build_polytope(pos, &tetra_faces(), WindingCheck::Unchecked));
    assert_eq!(e, GeometryError::CoordinateOutOfRange { vertex: 4 });
}

#[test]
fn coordinate_at_limit_accepted() {
    let pos = vec![
        Point3::new(COORD_LIMIT, COORD_LIMIT, COORD_LIMIT),
        Point3::new(-COORD_LIMIT, -COORD_LIMIT, COORD_LIMIT),
        Point3::new(-COORD_LIMIT, COORD_LIMIT, -COORD_LIMIT),
        Point3::new(COORD_LIMIT, -COORD_LIMIT, -COORD_LIMIT),
    ];
    let faces = vec![Face::new(0, 1, 2), Face::new(0, 1, 3), Face::new(0, 2, 3), Face::new(1, 2, 3)];
    let mesh = build_polytope(pos, &faces, WindingCheck::Correct).unwrap();
    for t in 0..mesh.face_count() {
        assert!(outwardness(mesh.positions(), mesh.face(t)) > 0);
    }
}

#[test]
fn face_through_centroid_is_inconsistent() {
    // A flat quad: every face lies in a plane through the centroid.
    let pos = vec![
        Point3::new(0, 0, 0),
        Point3::new(1000, 0, 0),
        Point3::new(1000, 1000, 0),
        Point3::new(0, 1000, 0),
    ];
    let faces = vec![Face::new(0, 1, 2), Face::new(0, 2, 3)];
    let e = expect_err(build_polytope(pos.clone(), &faces, WindingCheck::Correct));
    assert_eq!(e, GeometryError::InconsistentWinding { face: 0 });
    let mesh = build_polytope(pos, &faces, WindingCheck::Unchecked).unwrap();
    assert_eq!(mesh.face_count(), 2);
}

#[test]
fn built_indices_name_vertices_in_whole_triples() {
    let mesh = build_polytope(tetra_positions(), &tetra_faces(), WindingCheck::Correct).unwrap();
    assert_eq!(mesh.indices().len() % 3, 0);
    for &i in mesh.indices() {
        assert!((i as usize) < mesh.vertex_count());
    }
    let empty = build_polytope(tetra_positions(), &Vec::new(), WindingCheck::Reject).unwrap();
    assert_eq!(empty.face_count(), 0);
    assert_eq!(empty.vertex_count(), 4);
}
