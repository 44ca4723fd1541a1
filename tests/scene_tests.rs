use skill_sphere::cache::{AssetCache, AssetHandle};
use skill_sphere::camera::{CameraRig, DEFAULT_ORBIT_RADIUS};
use skill_sphere::compose::{compose, ComposeError, LightSpec, NodeSpec, SceneDescription};
use skill_sphere::geometry::{build_polytope, Face, MeshAsset, Point3, WindingCheck};
use skill_sphere::scene::{
    Atmosphere, Color, LightResource, LinkError, Marker, Material, PointLight, Pole, Scene,
    SceneNode, SkillSphere, Transform,
};

const UNIT: i32 = 1_000_000;

/// An axis-aligned cube of the given half size, faces wound outward.
fn cube(half: i32) -> MeshAsset {
    let h = half;
    let pos = vec![
        Point3::new(-h, -h, -h),
        Point3::new(h, -h, -h),
        Point3::new(h, h, -h),
        Point3::new(-h, h, -h),
        Point3::new(-h, -h, h),
        Point3::new(h, -h, h),
        Point3::new(h, h, h),
        Point3::new(-h, h, h),
    ];
    let faces = vec![
        Face::new(0, 1, 2), Face::new(0, 2, 3),
        Face::new(4, 5, 6), Face::new(4, 6, 7),
        Face::new(0, 1, 5), Face::new(0, 5, 4),
        Face::new(2, 3, 7), Face::new(2, 7, 6),
        Face::new(1, 2, 6), Face::new(1, 6, 5),
        Face::new(0, 3, 7), Face::new(0, 7, 4),
    ];
    build_polytope(pos, &faces, WindingCheck::Correct).unwrap()
}

fn atmosphere() -> Atmosphere {
    Atmosphere { rayleigh_r: 20, rayleigh_g: 10, rayleigh_b: 20 }
}

fn spec(name: &str, parent: Option<&str>, mesh: Option<&str>, material: Option<&str>, t: Transform) -> NodeSpec {
    NodeSpec {
        name: name.to_string(),
        transform: t,
        parent: parent.map(|p| p.to_string()),
        mesh: mesh.map(|m| m.to_string()),
        material: material.map(|m| m.to_string()),
        marker: Marker::Plain,
    }
}

fn plain_node(name: &str) -> SceneNode {
    SceneNode {
        name: name.to_string(),
        transform: Transform::from_xyz(0, 0, 0),
        mesh: None,
        material: None,
        marker: Marker::Plain,
    }
}

fn empty_scene() -> Scene {
    Scene::new(AssetCache::new(), AssetCache::new(), atmosphere())
}

fn compose_err(r: Result<Scene, ComposeError>) -> ComposeError {
    match r {
        Ok(_) => panic!("expected an error"),
        Err(e) => e,
    }
}

#[test]
fn intern_twice_shares_one_asset() {
    let mut cache: AssetCache<MeshAsset> = AssetCache::new();
    let key = "cube".to_string();
    let mut runs = 0;
    let h1 = cache.intern(&key, || {
        runs += 1;
        cube(UNIT / 4)
    });
    let h2 = cache.intern(&key, || {
        runs += 1;
        cube(UNIT)
    });
    assert_eq!(runs, 1);
    assert_eq!(h1, h2);
    assert_eq!(cache.len(), 1);
    assert!(std::ptr::eq(cache.get(h1), cache.get(h2)));
    assert_eq!(cache.get(h2).positions()[0], Point3::new(-UNIT / 4, -UNIT / 4, -UNIT / 4));
}

#[test]
fn intern_distinct_keys_run_each_factory() {
    let mut cache: AssetCache<Material> = AssetCache::new();
    let green = Material { base_color: Color { r: 0, g: 700, b: 0 } };
    let grey = Material { base_color: Color { r: 300, g: 500, b: 300 } };
    let a = cache.intern(&"green".to_string(), || green);
    let b = cache.intern(&"grey".to_string(), || grey);
    assert_eq!(a, AssetHandle { index: 0 });
    assert_eq!(b, AssetHandle { index: 1 });
    assert_eq!(*cache.get(b), grey);
    assert_eq!(cache.lookup(&"green".to_string()), Some(a));
    assert_eq!(cache.lookup(&"red".to_string()), None);
}

#[test]
fn relinking_a_parented_node_fails() {
    let mut s = empty_scene();
    let a = s.add_node(plain_node("a"));
    let b = s.add_node(plain_node("b"));
    let c = s.add_node(plain_node("c"));
    assert_eq!(s.link(a, c), Ok(()));
    assert_eq!(s.link(b, c), Err(LinkError::AlreadyParented));
    assert_eq!(s.parent(c), Some(a));
    assert_eq!(s.children(a), &vec![c]);
    assert!(s.children(b).is_empty());
}

#[test]
fn linking_into_own_subtree_fails() {
    let mut s = empty_scene();
    let a = s.add_node(plain_node("a"));
    let b = s.add_node(plain_node("b"));
    assert_eq!(s.link(a, a), Err(LinkError::WouldCycle));
    assert_eq!(s.link(a, b), Ok(()));
    assert_eq!(s.link(b, a), Err(LinkError::WouldCycle));
    assert_eq!(s.parent(a), None);
    assert!(s.children(b).is_empty());
}

#[test]
fn children_keep_insertion_order() {
    let mut s = empty_scene();
    let root = s.add_node(plain_node("root"));
    let x = s.add_node(plain_node("x"));
    let y = s.add_node(plain_node("y"));
    assert_eq!(s.link(root, y), Ok(()));
    assert_eq!(s.link(root, x), Ok(()));
    assert_eq!(s.children(root), &vec![y, x]);
}

#[test]
fn world_translation_sums_along_the_path() {
    let mut s = empty_scene();
    let mut n = plain_node("root");
    n.transform = Transform::from_xyz(2 * UNIT, 0, -UNIT);
    let root = s.add_node(n);
    let mut m = plain_node("mid");
    m.transform = Transform::from_xyz(0, UNIT, 0);
    let mid = s.add_node(m);
    let mut l = plain_node("leaf");
    l.transform = Transform::from_xyz(5, 6, 7);
    let leaf = s.add_node(l);
    s.link(root, mid).unwrap();
    s.link(mid, leaf).unwrap();
    assert_eq!(s.world_translation(leaf), Some((2 * UNIT as i64 + 5, UNIT as i64 + 6, -(UNIT as i64) + 7)));
    assert_eq!(s.world_translation(root), Some((2 * UNIT as i64, 0, -(UNIT as i64))));
}

#[test]
fn compose_rejects_cyclic_parents() {
    let desc = SceneDescription {
        nodes: vec![
            spec("a", Some("b"), None, None, Transform::from_xyz(0, 0, 0)),
            spec("b", Some("a"), None, None, Transform::from_xyz(0, 0, 0)),
        ],
        lights: Vec::new(),
        atmosphere: atmosphere(),
    };
    let e = compose_err(compose(&desc, AssetCache::new(), AssetCache::new()));
    assert_eq!(e, ComposeError::CyclicParent { node: 1 });
}

#[test]
fn compose_rejects_self_parent() {
    let desc = SceneDescription {
        nodes: vec![spec("a", Some("a"), None, None, Transform::from_xyz(0, 0, 0))],
        lights: Vec::new(),
        atmosphere: atmosphere(),
    };
    let e = compose_err(compose(&desc, AssetCache::new(), AssetCache::new()));
    assert_eq!(e, ComposeError::CyclicParent { node: 0 });
}

#[test]
fn compose_rejects_unknown_parent() {
    let desc = SceneDescription {
        nodes: vec![
            spec("a", None, None, None, Transform::from_xyz(0, 0, 0)),
            spec("b", Some("nowhere"), None, None, Transform::from_xyz(0, 0, 0)),
        ],
        lights: Vec::new(),
        atmosphere: atmosphere(),
    };
    let e = compose_err(compose(&desc, AssetCache::new(), AssetCache::new()));
    assert_eq!(e, ComposeError::UnknownParent { node: 1 });
}

#[test]
fn compose_rejects_duplicate_names() {
    let desc = SceneDescription {
        nodes: vec![
            spec("a", None, None, None, Transform::from_xyz(0, 0, 0)),
            spec("b", None, None, None, Transform::from_xyz(0, 0, 0)),
            spec("a", None, None, None, Transform::from_xyz(0, 0, 0)),
        ],
        lights: Vec::new(),
        atmosphere: atmosphere(),
    };
    let e = compose_err(compose(&desc, AssetCache::new(), AssetCache::new()));
    assert_eq!(e, ComposeError::DuplicateName { node: 2 });
}

#[test]
fn compose_rejects_missing_asset() {
    let desc = SceneDescription {
        nodes: vec![spec("a", None, Some("Star.glb"), None, Transform::from_xyz(0, 0, 0))],
        lights: Vec::new(),
        atmosphere: atmosphere(),
    };
    let e = compose_err(compose(&desc, AssetCache::new(), AssetCache::new()));
    assert_eq!(e, ComposeError::AssetNotFound { node: 0 });
}

#[test]
fn skill_sphere_scene_end_to_end() {
    let mut meshes: AssetCache<MeshAsset> = AssetCache::new();
    let mut materials: AssetCache<Material> = AssetCache::new();
    let cube_h = meshes.intern(&"cube".to_string(), || cube(UNIT / 4));
    let green = Material { base_color: Color { r: 0, g: 700, b: 0 } };
    let green_h = materials.intern(&"pole".to_string(), || green);

    let mut sphere = spec("Sphere", None, None, None, Transform::from_xyz(0, 0, 0));
    sphere.marker = Marker::Sphere(SkillSphere::default());
    let mut pole = spec("Pole", Some("Sphere"), Some("cube"), Some("pole"), Transform::from_xyz(0, UNIT, 0));
    pole.marker = Marker::Pole(Pole::new("Fire".to_string()));
    let light = LightSpec {
        name: "Light".to_string(),
        transform: Transform::from_xyz(4 * UNIT, 8 * UNIT, 4 * UNIT),
        light: PointLight { intensity: 1500, shadows_enabled: true },
    };
    let desc = SceneDescription { nodes: vec![sphere, pole], lights: vec![light], atmosphere: atmosphere() };
    let s = match compose(&desc, meshes, materials) {
        Ok(s) => s,
        Err(e) => panic!("compose failed: {:?}", e),
    };

    assert_eq!(s.node_count(), 2);
    assert_eq!(s.node(0).name, "Sphere");
    assert_eq!(s.parent(0), None);
    assert_eq!(s.node(1).name, "Pole");
    assert_eq!(s.parent(1), Some(0));
    assert_eq!(s.children(0), &vec![1]);
    assert_eq!(s.node(1).mesh, Some(cube_h));
    assert_eq!(s.node(1).material, Some(green_h));
    assert_eq!(*s.materials().get(green_h), green);
    assert_eq!(s.meshes().get(cube_h).face_count(), 12);
    match &s.node(1).marker {
        Marker::Pole(p) => assert_eq!(p.skill_name(), "Fire"),
        _ => panic!("pole marker missing"),
    }
    assert!(matches!(s.node(0).marker, Marker::Sphere(_)));

    let lights: &Vec<LightResource> = s.lights();
    assert_eq!(lights.len(), 1);
    assert_eq!(lights[0].name, "Light");
    assert_eq!(lights[0].light.intensity, 1500);
    assert_eq!(s.atmosphere(), atmosphere());

    let root = s.world_translation(0).unwrap();
    let pole_world = s.world_translation(1).unwrap();
    assert_eq!(pole_world, (root.0, root.1 + UNIT as i64, root.2));
}

#[test]
fn atmosphere_is_replaced_whole() {
    let mut s = empty_scene();
    s.set_atmosphere(Atmosphere { rayleigh_r: 1, rayleigh_g: 2, rayleigh_b: 3 });
    assert_eq!(s.atmosphere(), Atmosphere { rayleigh_r: 1, rayleigh_g: 2, rayleigh_b: 3 });
}

#[test]
fn camera_rig_defaults() {
    let rig = CameraRig::default();
    assert_eq!(rig.focus, Point3::new(0, 0, 0));
    assert_eq!(rig.radius, DEFAULT_ORBIT_RADIUS);
    assert!(rig.radius > 0);
    assert!(!rig.upside_down);
}
