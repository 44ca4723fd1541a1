//! Scene composer: builds a scene graph from a declarative description.
use vstd::prelude::*;
use crate::cache::{AssetCache, AssetHandle};
use crate::geometry::MeshAsset;
use crate::scene::{
    acyclic, ancestor, Atmosphere, LightResource, LinkError, Marker, Material,
    PointLight, Scene, SceneNode, Transform,
};

verus! {

/// One node of a description. `parent` names another node of the same
/// description; `mesh` and `material` are keys of the asset caches.
pub struct NodeSpec {
    pub name: String,
    pub transform: Transform,
    pub parent: Option<String>,
    pub mesh: Option<String>,
    pub material: Option<String>,
    pub marker: Marker,
}

pub struct LightSpec {
    pub name: String,
    pub transform: Transform,
    pub light: PointLight,
}

pub struct SceneDescription {
    pub nodes: Vec<NodeSpec>,
    pub lights: Vec<LightSpec>,
    pub atmosphere: Atmosphere,
}

/// Why a description could not be composed; `node` is a position in the
/// description's node list.
#[derive(Clone, Copy, Debug, PartialEq, Eq, Structural)]
pub enum ComposeError {
    /// An earlier node has the same name.
    DuplicateName { node: usize },
    /// The node's mesh or material key is not in its cache.
    AssetNotFound { node: usize },
    /// No node has the name given as this node's parent.
    UnknownParent { node: usize },
    /// Following parents from this node leads back to it.
    CyclicParent { node: usize },
}

pub open spec fn names_unique(nodes: Seq<NodeSpec>) -> bool {
    forall|i: int, j: int| 0 <= i < j < nodes.len() ==> #[trigger] nodes[i].name@ != #[trigger] nodes[j].name@
}

pub open spec fn named(nodes: Seq<NodeSpec>, n: Seq<char>) -> bool {
    exists|j: int| 0 <= j < nodes.len() && nodes[j].name@ == n
}

pub open spec fn index_named(nodes: Seq<NodeSpec>, n: Seq<char>) -> int {
    choose|j: int| 0 <= j < nodes.len() && nodes[j].name@ == n
}

/// The position of node `i`'s parent in the description.
pub open spec fn described_parent(nodes: Seq<NodeSpec>, i: int) -> Option<usize> {
    match nodes[i].parent {
        Some(p) => if named(nodes, p@) {
            Some(index_named(nodes, p@) as usize)
        } else {
            None
        },
        None => None,
    }
}

pub open spec fn described_parents(nodes: Seq<NodeSpec>) -> Seq<Option<usize>> {
    Seq::new(nodes.len(), |i: int| described_parent(nodes, i))
}

pub open spec fn parents_known(nodes: Seq<NodeSpec>) -> bool {
    forall|i: int| 0 <= i < nodes.len() ==> ((#[trigger] nodes[i]).parent matches Some(p) ==> named(nodes, p@))
}

pub open spec fn key_resolves<A>(cache: AssetCache<A>, key: Option<String>) -> bool {
    key matches Some(k) ==> cache.position_of(k@) is Some
}

pub open spec fn resolved<A>(cache: AssetCache<A>, key: Option<String>) -> Option<AssetHandle> {
    match key {
        Some(k) => Some(AssetHandle { index: cache.position_of(k@)->0 as usize }),
        None => None,
    }
}

pub open spec fn assets_resolve(
    nodes: Seq<NodeSpec>,
    meshes: AssetCache<MeshAsset>,
    materials: AssetCache<Material>,
) -> bool {
    forall|i: int|
        0 <= i < nodes.len() ==> key_resolves(meshes, (#[trigger] nodes[i]).mesh) && key_resolves(
            materials,
            nodes[i].material,
        )
}

/// The description can be composed: distinct names, known parents, assets
/// present, and no cycle among the parents.
pub open spec fn composable(
    nodes: Seq<NodeSpec>,
    meshes: AssetCache<MeshAsset>,
    materials: AssetCache<Material>,
) -> bool {
    &&& names_unique(nodes)
    &&& parents_known(nodes)
    &&& assets_resolve(nodes, meshes, materials)
    &&& acyclic(described_parents(nodes))
}

/// The scene node was made from the described node.
pub open spec fn node_made_from(
    n: SceneNode,
    d: NodeSpec,
    meshes: AssetCache<MeshAsset>,
    materials: AssetCache<Material>,
) -> bool {
    &&& n.name@ == d.name@
    &&& n.transform == d.transform
    &&& n.marker.same_as(&d.marker)
    &&& n.mesh == resolved(meshes, d.mesh)
    &&& n.material == resolved(materials, d.material)
}

pub open spec fn light_made_from(l: LightResource, d: LightSpec) -> bool {
    l.name@ == d.name@ && l.transform == d.transform && l.light == d.light
}

proof fn lemma_subset_ancestor(
    small: Seq<Option<usize>>,
    big: Seq<Option<usize>>,
    x: int,
    k: nat,
    c: int,
)
    requires
        small.len() == big.len(),
        forall|y: int| 0 <= y < small.len() && (#[trigger] small[y]) is Some ==> big[y] == small[y],
        ancestor(small, x, k) == Some(c),
    ensures
        ancestor(big, x, k) == Some(c),
    decreases k,
{
    if k > 0 {
        lemma_subset_ancestor(small, big, small[x]->0 as int, (k - 1) as nat, c);
    }
}

proof fn lemma_index_named(nodes: Seq<NodeSpec>, j: int)
    requires
        names_unique(nodes),
        0 <= j < nodes.len(),
    ensures
        named(nodes, nodes[j].name@),
        index_named(nodes, nodes[j].name@) == j,
{
    let n = nodes[j].name@;
    assert(named(nodes, n));
    let c = index_named(nodes, n);
    if c < j {
        assert(nodes[c].name@ != nodes[j].name@);
    } else if j < c {
        assert(nodes[j].name@ != nodes[c].name@);
    }
}

/// Builds the scene that `desc` describes, over the given asset caches. On an
/// error nothing is returned but the error.
pub fn compose(
    desc: &SceneDescription,
    meshes: AssetCache<MeshAsset>,
    materials: AssetCache<Material>,
) -> (r: Result<Scene, ComposeError>)
    requires
        meshes.well_formed(),
        materials.well_formed(),
    ensures
        r is Ok <==> composable(desc.nodes@, meshes, materials),
        r matches Ok(s) ==> {
            &&& s.well_formed()
            &&& s.spec_nodes().len() == desc.nodes@.len()
            &&& forall|i: int|
                0 <= i < desc.nodes@.len() ==> node_made_from(
                    #[trigger] s.spec_nodes()[i],
                    desc.nodes@[i],
                    meshes,
                    materials,
                )
            &&& s.spec_parents() == described_parents(desc.nodes@)
            &&& s.spec_meshes() == meshes
            &&& s.spec_materials() == materials
            &&& s.spec_lights().len() == desc.lights@.len()
            &&& forall|i: int|
                0 <= i < desc.lights@.len() ==> light_made_from(
                    #[trigger] s.spec_lights()[i],
                    desc.lights@[i],
                )
            &&& s.spec_atmosphere() == desc.atmosphere
        },
        r matches Err(ComposeError::DuplicateName { node }) ==> node < desc.nodes@.len() && exists|j: int|
            0 <= j < node && desc.nodes@[j].name@ == desc.nodes@[node as int].name@,
        r matches Err(ComposeError::AssetNotFound { node }) ==> node < desc.nodes@.len() && !(
        key_resolves(meshes, desc.nodes@[node as int].mesh) && key_resolves(
            materials,
            desc.nodes@[node as int].material,
        )),
        r matches Err(ComposeError::UnknownParent { node }) ==> node < desc.nodes@.len() && (
        desc.nodes@[node as int].parent matches Some(p) && !named(desc.nodes@, p@)),
        r matches Err(ComposeError::CyclicParent { node }) ==> node < desc.nodes@.len() && exists|
            k: nat,
        | k > 0 && #[trigger] ancestor(described_parents(desc.nodes@), node as int, k) == Some(node as int),
{
    let ghost nodes = desc.nodes@;
    let mut scene = Scene::new(meshes, materials, desc.atmosphere);
    assert(scene.spec_parents() =~= Seq::new(0, |x: int| None::<usize>));
    let n = desc.nodes.len();
    let mut i: usize = 0;
    while i < n
        invariant
            nodes == desc.nodes@,
            n == nodes.len(),
            0 <= i <= n,
            scene.well_formed(),
            scene.spec_nodes().len() == i,
            scene.spec_parents() == Seq::new(i as nat, |x: int| None::<usize>),
            scene.spec_meshes() == meshes,
            scene.spec_materials() == materials,
            scene.spec_lights().len() == 0,
            scene.spec_atmosphere() == desc.atmosphere,
            forall|a: int, b: int| 0 <= a < b < i ==> #[trigger] nodes[a].name@ != #[trigger] nodes[b].name@,
            forall|x: int|
                0 <= x < i ==> key_resolves(meshes, (#[trigger] nodes[x]).mesh) && key_resolves(
                    materials,
                    nodes[x].material,
                ),
            forall|x: int|
                0 <= x < i ==> node_made_from(#[trigger] scene.spec_nodes()[x], nodes[x], meshes, materials),
        decreases n - i,
    {
        let d = &desc.nodes[i];
        let mut j: usize = 0;
        while j < i
            invariant
                nodes == desc.nodes@,
                0 <= j <= i < n,
                n == nodes.len(),
                *d == nodes[i as int],
                forall|y: int| 0 <= y < j ==> nodes[y].name@ != nodes[i as int].name@,
            decreases i - j,
        {
            if desc.nodes[j].name == d.name {
                return Err(ComposeError::DuplicateName { node: i });
            }
            j = j + 1;
        }
        let mesh = match &d.mesh {
            Some(k) => match scene.meshes().lookup(k) {
                Some(h) => Some(h),
                None => {
                    return Err(ComposeError::AssetNotFound { node: i });
                },
            },
            None => None,
        };
        let material = match &d.material {
            Some(k) => match scene.materials().lookup(k) {
                Some(h) => Some(h),
                None => {
                    return Err(ComposeError::AssetNotFound { node: i });
                },
            },
            None => None,
        };
        proof {
            crate::cache::lemma_position_found(meshes.spec_keys(), d.mesh->0@);
            crate::cache::lemma_position_found(materials.spec_keys(), d.material->0@);
        }
        let node = SceneNode {
            name: d.name.clone(),
            transform: d.transform,
            mesh,
            material,
            marker: d.marker.duplicate(),
        };
        let ghost before = scene.spec_nodes();
        let _id = scene.add_node(node);
        proof {
            assert(scene.spec_parents() =~= Seq::new((i + 1) as nat, |x: int| None::<usize>));
            assert forall|x: int| 0 <= x < i + 1 implies node_made_from(
                #[trigger] scene.spec_nodes()[x],
                nodes[x],
                meshes,
                materials,
            ) by {
                if x < i {
                    assert(scene.spec_nodes()[x] == before[x]);
                }
            }
        }
        i = i + 1;
    }
    let ghost dp = described_parents(nodes);
    assert(names_unique(nodes));
    assert(assets_resolve(nodes, meshes, materials));
    let mut i: usize = 0;
    while i < n
        invariant
            nodes == desc.nodes@,
            n == nodes.len(),
            0 <= i <= n,
            dp == described_parents(nodes),
            names_unique(nodes),
            assets_resolve(nodes, meshes, materials),
            scene.well_formed(),
            scene.spec_nodes().len() == n,
            scene.spec_parents() == Seq::new(n as nat, |x: int| if x < i { dp[x] } else { None }),
            scene.spec_meshes() == meshes,
            scene.spec_materials() == materials,
            scene.spec_lights().len() == 0,
            scene.spec_atmosphere() == desc.atmosphere,
            forall|x: int| 0 <= x < i ==> ((#[trigger] nodes[x]).parent matches Some(p) ==> named(nodes, p@)),
            forall|x: int|
                0 <= x < n ==> node_made_from(#[trigger] scene.spec_nodes()[x], nodes[x], meshes, materials),
        decreases n - i,
    {
        let d = &desc.nodes[i];
        match &d.parent {
            None => {
                proof {
                    assert(dp[i as int] is None);
                    assert(scene.spec_parents() =~= Seq::new(n as nat, |x: int| if x < i + 1 { dp[x] } else { None }));
                }
            },
            Some(p) => {
                let mut j: usize = 0;
                let mut found = false;
                while j < n
                    invariant
                        nodes == desc.nodes@,
                        n == nodes.len(),
                        0 <= j <= n,
                        i < n,
                        *p == nodes[i as int].parent->0,
                        forall|y: int| 0 <= y < j ==> nodes[y].name@ != p@,
                    ensures
                        j < n ==> nodes[j as int].name@ == p@,
                        j == n ==> !named(nodes, p@),
                    decreases n - j,
                {
                    if desc.nodes[j].name == *p {
                        break ;
                    }
                    j = j + 1;
                }
                if j == n {
                    return Err(ComposeError::UnknownParent { node: i });
                }
                proof {
                    lemma_index_named(nodes, j as int);
                    assert(dp[i as int] == Some(j));
                }
                let ghost before = scene.spec_parents();
                match scene.link(j, i) {
                    Ok(()) => {
                        proof {
                            assert(scene.spec_parents() =~= Seq::new(n as nat, |x: int| if x < i + 1 { dp[x] } else { None }));
                        }
                    },
                    Err(LinkError::AlreadyParented) => {
                        assert(before[i as int] is None);
                        return Err(ComposeError::CyclicParent { node: i });
                    },
                    Err(LinkError::WouldCycle) => {
                        proof {
                            let k = choose|k: nat| ancestor(before, j as int, k) == Some(i as int);
                            assert forall|y: int| 0 <= y < before.len() && (#[trigger] before[y]) is Some implies dp[y] == before[y] by {
                            }
                            lemma_subset_ancestor(before, dp, j as int, k, i as int);
                            let k2: nat = k + 1;
                            assert(ancestor(dp, i as int, k2) == Some(i as int));
                            assert(k2 > 0 && ancestor(described_parents(desc.nodes@), i as int, k2) == Some(i as int));
                            assert(exists|kk: nat| kk > 0 && ancestor(described_parents(desc.nodes@), i as int, kk) == Some(i as int));
                        }
                        let e = ComposeError::CyclicParent { node: i };
                        assert(e matches ComposeError::CyclicParent { node } && node == i);
                        return Err(e);
                    },
                }
            },
        }
        i = i + 1;
    }
    assert(scene.spec_parents() =~= dp);
    assert(parents_known(nodes));
    proof {
        crate::scene::lemma_scene_is_forest(scene);
    }
    let mut l: usize = 0;
    while l < desc.lights.len()
        invariant
            0 <= l <= desc.lights@.len(),
            scene.well_formed(),
            scene.spec_nodes().len() == n,
            scene.spec_parents() == dp,
            scene.spec_meshes() == meshes,
            scene.spec_materials() == materials,
            scene.spec_atmosphere() == desc.atmosphere,
            scene.spec_lights().len() == l,
            forall|x: int|
                0 <= x < n ==> node_made_from(#[trigger] scene.spec_nodes()[x], nodes[x], meshes, materials),
            forall|x: int| 0 <= x < l ==> light_made_from(#[trigger] scene.spec_lights()[x], desc.lights@[x]),
        decreases desc.lights@.len() - l,
    {
        let ls = &desc.lights[l];
        let ghost before = scene.spec_lights();
        scene.add_light(LightResource { name: ls.name.clone(), transform: ls.transform, light: ls.light });
        proof {
            assert forall|x: int| 0 <= x < l + 1 implies light_made_from(#[trigger] scene.spec_lights()[x], desc.lights@[x]) by {
                if x < l {
                    assert(scene.spec_lights()[x] == before[x]);
                }
            }
        }
        l = l + 1;
    }
    Ok(scene)
}

} // verus!
