//! Scene graph: an arena of nodes, linked into a forest by parent indices and
//! ordered child lists, with scene-level lights and atmosphere.
use vstd::prelude::*;
use crate::cache::{AssetCache, AssetHandle};
use crate::geometry::MeshAsset;

verus! {

/// A local placement: a translation in fixed-point scene coordinates.
#[derive(Clone, Copy, Debug, PartialEq, Eq, Structural)]
pub struct Transform {
    pub x: i32,
    pub y: i32,
    pub z: i32,
}

impl Transform {
    pub fn from_xyz(x: i32, y: i32, z: i32) -> (t: Transform)
        ensures
            t == (Transform { x, y, z }),
    {
        Transform { x, y, z }
    }
}

/// A colour, each channel in thousandths of full intensity.
#[derive(Clone, Copy, Debug, PartialEq, Eq, Structural)]
pub struct Color {
    pub r: u16,
    pub g: u16,
    pub b: u16,
}

#[derive(Clone, Copy, Debug, PartialEq, Eq, Structural)]
pub struct Material {
    pub base_color: Color,
}

/// Marks the node that carries the skill sphere.
#[derive(Clone, Copy, Debug, PartialEq, Eq, Structural, Default)]
pub struct SkillSphere {}

/// Marks a pole of the skill sphere, with the skill it stands for.
#[derive(Clone, Debug, PartialEq, Eq)]
pub struct Pole {
    skill_name: String,
}

impl Pole {
    pub fn new(skill_name: String) -> (p: Pole)
        ensures
            p.spec_skill_name() == skill_name@,
    {
        Pole { skill_name }
    }

    pub closed spec fn spec_skill_name(&self) -> Seq<char> {
        self.skill_name@
    }

    pub fn skill_name(&self) -> (r: &String)
        ensures
            r@ == self.spec_skill_name(),
    {
        &self.skill_name
    }

    pub fn duplicate(&self) -> (r: Pole)
        ensures
            r.spec_skill_name() == self.spec_skill_name(),
    {
        Pole { skill_name: self.skill_name.clone() }
    }
}

/// What a node is, beyond its geometry.
#[derive(Clone, Debug, PartialEq, Eq)]
pub enum Marker {
    Plain,
    Sphere(SkillSphere),
    Pole(Pole),
}

impl Marker {
    pub open spec fn same_as(&self, o: &Marker) -> bool {
        match (self, o) {
            (Marker::Plain, Marker::Plain) => true,
            (Marker::Sphere(_), Marker::Sphere(_)) => true,
            (Marker::Pole(p), Marker::Pole(q)) => p.spec_skill_name() == q.spec_skill_name(),
            _ => false,
        }
    }

    pub fn duplicate(&self) -> (r: Marker)
        ensures
            r.same_as(self),
    {
        match self {
            Marker::Plain => Marker::Plain,
            Marker::Sphere(_) => Marker::Sphere(SkillSphere {  }),
            Marker::Pole(p) => Marker::Pole(p.duplicate()),
        }
    }
}

/// The payload of a node: everything but its links.
pub struct SceneNode {
    pub name: String,
    pub transform: Transform,
    pub mesh: Option<AssetHandle>,
    pub material: Option<AssetHandle>,
    pub marker: Marker,
}

#[derive(Clone, Copy, Debug, PartialEq, Eq, Structural)]
pub struct PointLight {
    /// Luminous power in lumens.
    pub intensity: u32,
    pub shadows_enabled: bool,
}

/// A light of the scene: placed, but not a node of the graph.
pub struct LightResource {
    pub name: String,
    pub transform: Transform,
    pub light: PointLight,
}

/// Rayleigh scattering coefficients of the sky, per channel, in millionths
/// per metre.
#[derive(Clone, Copy, Debug, PartialEq, Eq, Structural)]
pub struct Atmosphere {
    pub rayleigh_r: u32,
    pub rayleigh_g: u32,
    pub rayleigh_b: u32,
}

#[derive(Clone, Copy, Debug, PartialEq, Eq, Structural)]
pub enum LinkError {
    /// The child already has a parent; nothing was changed.
    AlreadyParented,
    /// The child is the parent or one of its ancestors; linking would close a
    /// cycle.
    WouldCycle,
}

/// The node reached from `i` by `k` steps up the parent links.
pub open spec fn ancestor(parents: Seq<Option<usize>>, i: int, k: nat) -> Option<int>
    decreases k,
{
    if k == 0 {
        Some(i)
    } else if 0 <= i < parents.len() && parents[i] is Some {
        ancestor(parents, parents[i]->0 as int, (k - 1) as nat)
    } else {
        None
    }
}

/// `j` is `c` or lies below it.
pub open spec fn descends(parents: Seq<Option<usize>>, j: int, c: int) -> bool {
    exists|k: nat| ancestor(parents, j, k) == Some(c)
}

/// No node is its own proper ancestor.
pub open spec fn acyclic(parents: Seq<Option<usize>>) -> bool {
    forall|i: int, k: nat| 0 <= i < parents.len() && k > 0 ==> #[trigger] ancestor(parents, i, k) != Some(i)
}

/// Parent links and child lists describe the same edges, and no child list
/// repeats a node.
pub open spec fn links_consistent(parents: Seq<Option<usize>>, children: Seq<Seq<usize>>) -> bool {
    &&& parents.len() == children.len()
    &&& forall|i: int, k: int|
        0 <= i < children.len() && 0 <= k < children[i].len() ==> {
            &&& #[trigger] children[i][k] < parents.len()
            &&& parents[children[i][k] as int] == Some(i as usize)
        }
    &&& forall|j: int|
        0 <= j < parents.len() && (#[trigger] parents[j]) is Some ==> {
            &&& parents[j]->0 < parents.len()
            &&& children[parents[j]->0 as int].contains(j as usize)
        }
    &&& forall|i: int| 0 <= i < children.len() ==> (#[trigger] children[i]).no_duplicates()
}

pub open spec fn ranked(parents: Seq<Option<usize>>, rank: Seq<nat>) -> bool {
    &&& rank.len() == parents.len()
    &&& forall|j: int|
        0 <= j < parents.len() && (#[trigger] parents[j]) is Some ==> parents[j]->0 < parents.len()
            && rank[parents[j]->0 as int] < rank[j]
}

pub type Offset = (int, int, int);

pub open spec fn local_offset(n: SceneNode) -> Offset {
    (n.transform.x as int, n.transform.y as int, n.transform.z as int)
}

/// Sum of the translations from node `i` up to its root.
pub open spec fn world_of(
    nodes: Seq<SceneNode>,
    parents: Seq<Option<usize>>,
    rank: Seq<nat>,
    i: int,
) -> Offset
    decreases rank[i],
{
    let own = local_offset(nodes[i]);
    if 0 <= i < parents.len() && parents[i] is Some && 0 <= parents[i]->0 < rank.len() && rank[parents[i]->0 as int]
        < rank[i] {
        let w = world_of(nodes, parents, rank, parents[i]->0 as int);
        (own.0 + w.0, own.1 + w.1, own.2 + w.2)
    } else {
        own
    }
}

pub open spec fn fits_i64(v: Offset) -> bool {
    &&& i64::MIN <= v.0 <= i64::MAX
    &&& i64::MIN <= v.1 <= i64::MAX
    &&& i64::MIN <= v.2 <= i64::MAX
}

/// Adding the translations one by one from node `i` upward, starting from
/// `acc`, every partial sum fits in 64 bits.
pub open spec fn chain_fits(
    nodes: Seq<SceneNode>,
    parents: Seq<Option<usize>>,
    rank: Seq<nat>,
    i: int,
    acc: Offset,
) -> bool
    decreases rank[i],
{
    let own = local_offset(nodes[i]);
    let a = (acc.0 + own.0, acc.1 + own.1, acc.2 + own.2);
    &&& fits_i64(a)
    &&& (0 <= i < parents.len() && parents[i] is Some && 0 <= parents[i]->0 < rank.len()
        && rank[parents[i]->0 as int] < rank[i]) ==> chain_fits(
        nodes,
        parents,
        rank,
        parents[i]->0 as int,
        a,
    )
}

pub struct Scene {
    nodes: Vec<SceneNode>,
    parents: Vec<Option<usize>>,
    children: Vec<Vec<usize>>,
    rank: Ghost<Seq<nat>>,
    meshes: AssetCache<MeshAsset>,
    materials: AssetCache<Material>,
    lights: Vec<LightResource>,
    atmosphere: Atmosphere,
}

impl Scene {
    pub closed spec fn spec_nodes(&self) -> Seq<SceneNode> {
        self.nodes@
    }

    pub closed spec fn spec_parents(&self) -> Seq<Option<usize>> {
        self.parents@
    }

    pub closed spec fn spec_children(&self) -> Seq<Seq<usize>> {
        Seq::new(self.children@.len(), |i: int| self.children@[i]@)
    }

    pub closed spec fn spec_meshes(&self) -> AssetCache<MeshAsset> {
        self.meshes
    }

    pub closed spec fn spec_materials(&self) -> AssetCache<Material> {
        self.materials
    }

    pub closed spec fn spec_lights(&self) -> Seq<LightResource> {
        self.lights@
    }

    pub closed spec fn spec_atmosphere(&self) -> Atmosphere {
        self.atmosphere
    }

    /// Sum of the translations from node `i` up to its root.
    pub closed spec fn spec_world(&self, i: int) -> Offset {
        world_of(self.nodes@, self.parents@, self.rank@, i)
    }

    pub open spec fn handles_resolve(&self, n: SceneNode) -> bool {
        &&& n.mesh matches Some(h) ==> h.index < self.spec_meshes().spec_assets().len()
        &&& n.material matches Some(h) ==> h.index < self.spec_materials().spec_assets().len()
    }

    pub closed spec fn well_formed(&self) -> bool {
        &&& self.nodes@.len() == self.parents@.len()
        &&& links_consistent(self.parents@, self.spec_children())
        &&& ranked(self.parents@, self.rank@)
        &&& self.meshes.well_formed()
        &&& self.materials.well_formed()
        &&& forall|i: int| 0 <= i < self.nodes@.len() ==> self.handles_resolve(#[trigger] self.nodes@[i])
    }

    /// The world translation of node `i` can be summed in 64 bits.
    pub closed spec fn world_fits(&self, i: int) -> bool {
        chain_fits(self.nodes@, self.parents@, self.rank@, i, (0, 0, 0))
    }

    /// An empty scene over the given asset caches and atmosphere.
    pub fn new(
        meshes: AssetCache<MeshAsset>,
        materials: AssetCache<Material>,
        atmosphere: Atmosphere,
    ) -> (s: Scene)
        requires
            meshes.well_formed(),
            materials.well_formed(),
        ensures
            s.well_formed(),
            s.spec_nodes().len() == 0,
            s.spec_parents().len() == 0,
            s.spec_meshes() == meshes,
            s.spec_materials() == materials,
            s.spec_lights().len() == 0,
            s.spec_atmosphere() == atmosphere,
    {
        let s = Scene {
            nodes: Vec::new(),
            parents: Vec::new(),
            children: Vec::new(),
            rank: Ghost(Seq::empty()),
            meshes,
            materials,
            lights: Vec::new(),
            atmosphere,
        };
        assert(s.spec_children() =~= Seq::empty());
        s
    }

    pub fn node_count(&self) -> (r: usize)
        requires
            self.well_formed(),
        ensures
            r == self.spec_nodes().len(),
            r == self.spec_parents().len(),
    {
        self.nodes.len()
    }

    pub fn node(&self, id: usize) -> (r: &SceneNode)
        requires
            id < self.spec_nodes().len(),
        ensures
            *r == self.spec_nodes()[id as int],
    {
        &self.nodes[id]
    }

    pub fn parent(&self, id: usize) -> (r: Option<usize>)
        requires
            id < self.spec_parents().len(),
        ensures
            r == self.spec_parents()[id as int],
    {
        self.parents[id]
    }

    pub fn children(&self, id: usize) -> (r: &Vec<usize>)
        requires
            self.well_formed(),
            id < self.spec_parents().len(),
        ensures
            r@ == self.spec_children()[id as int],
    {
        &self.children[id]
    }

    pub fn meshes(&self) -> (r: &AssetCache<MeshAsset>)
        ensures
            *r == self.spec_meshes(),
            self.well_formed() ==> r.well_formed(),
    {
        &self.meshes
    }

    pub fn materials(&self) -> (r: &AssetCache<Material>)
        ensures
            *r == self.spec_materials(),
            self.well_formed() ==> r.well_formed(),
    {
        &self.materials
    }

    pub fn lights(&self) -> (r: &Vec<LightResource>)
        ensures
            r@ == self.spec_lights(),
    {
        &self.lights
    }

    pub fn atmosphere(&self) -> (r: Atmosphere)
        ensures
            r == self.spec_atmosphere(),
    {
        self.atmosphere
    }

    /// Replaces the scene's atmosphere as a whole.
    pub fn set_atmosphere(&mut self, a: Atmosphere)
        ensures
            final(self).spec_atmosphere() == a,
            final(self).spec_nodes() == old(self).spec_nodes(),
            final(self).spec_parents() == old(self).spec_parents(),
            final(self).spec_children() == old(self).spec_children(),
            final(self).spec_lights() == old(self).spec_lights(),
            final(self).spec_meshes() == old(self).spec_meshes(),
            final(self).spec_materials() == old(self).spec_materials(),
            old(self).well_formed() ==> final(self).well_formed(),
    {
        self.atmosphere = a;
    }

    /// Registers a light at scene level.
    pub fn add_light(&mut self, l: LightResource)
        ensures
            final(self).spec_lights() == old(self).spec_lights().push(l),
            final(self).spec_atmosphere() == old(self).spec_atmosphere(),
            final(self).spec_nodes() == old(self).spec_nodes(),
            final(self).spec_parents() == old(self).spec_parents(),
            final(self).spec_children() == old(self).spec_children(),
            final(self).spec_meshes() == old(self).spec_meshes(),
            final(self).spec_materials() == old(self).spec_materials(),
            old(self).well_formed() ==> final(self).well_formed(),
    {
        self.lights.push(l);
    }

    /// Adds a node without parent or children; its id is returned.
    pub fn add_node(&mut self, n: SceneNode) -> (id: usize)
        requires
            old(self).well_formed(),
            old(self).handles_resolve(n),
        ensures
            final(self).well_formed(),
            id == old(self).spec_nodes().len(),
            final(self).spec_nodes() == old(self).spec_nodes().push(n),
            final(self).spec_parents() == old(self).spec_parents().push(None),
            final(self).spec_children() == old(self).spec_children().push(Seq::empty()),
            final(self).spec_meshes() == old(self).spec_meshes(),
            final(self).spec_materials() == old(self).spec_materials(),
            final(self).spec_lights() == old(self).spec_lights(),
            final(self).spec_atmosphere() == old(self).spec_atmosphere(),
    {
        let ghost old_children = self.spec_children();
        let ghost old_parents = self.parents@;
        let id = self.nodes.len();
        self.nodes.push(n);
        self.parents.push(None);
        self.children.push(Vec::new());
        self.rank = Ghost(self.rank@.push(0));
        proof {
            assert(self.spec_children() =~= old_children.push(Seq::empty()));
            let p = self.parents@;
            let ch = self.spec_children();
            assert forall|i: int, k: int|
                0 <= i < ch.len() && 0 <= k < ch[i].len() implies {
                    &&& #[trigger] ch[i][k] < p.len()
                    &&& p[ch[i][k] as int] == Some(i as usize)
                } by {
                assert(i < old_children.len());
                assert(ch[i] == old_children[i]);
            }
            assert forall|j: int|
                0 <= j < p.len() && (#[trigger] p[j]) is Some implies {
                    &&& p[j]->0 < p.len()
                    &&& ch[p[j]->0 as int].contains(j as usize)
                } by {
                assert(p[j] == old_parents[j]);
                assert(ch[p[j]->0 as int] == old_children[p[j]->0 as int]);
            }
            assert forall|i: int| 0 <= i < ch.len() implies (#[trigger] ch[i]).no_duplicates() by {
                if i < old_children.len() {
                    assert(ch[i] == old_children[i]);
                }
            }
            assert forall|j: int|
                0 <= j < p.len() && (#[trigger] p[j]) is Some implies p[j]->0 < p.len()
                && self.rank@[p[j]->0 as int] < self.rank@[j] by {
                assert(p[j] == old_parents[j]);
            }
            assert forall|i: int| 0 <= i < self.nodes@.len() implies self.handles_resolve(#[trigger] self.nodes@[i]) by {
                if i < old_parents.len() {
                    assert(self.nodes@[i] == old(self).nodes@[i]);
                }
            }
        }
        id
    }

    /// The world translation of node `id`: its own translation composed with
    /// those of all its ancestors. `None` only where the sum leaves 64 bits.
    pub fn world_translation(&self, id: usize) -> (r: Option<(i64, i64, i64)>)
        requires
            self.well_formed(),
            id < self.spec_nodes().len(),
        ensures
            r is Some <==> self.world_fits(id as int),
            r matches Some(w) ==> (w.0 as int, w.1 as int, w.2 as int) == self.spec_world(id as int),
    {
        let ghost nodes = self.nodes@;
        let ghost parents = self.parents@;
        let ghost rank = self.rank@;
        let mut x: i64 = 0;
        let mut y: i64 = 0;
        let mut z: i64 = 0;
        let mut cur = id;
        loop
            invariant
                self.well_formed(),
                nodes == self.nodes@,
                parents == self.parents@,
                rank == self.rank@,
                cur < nodes.len(),
                ({
                    let w = world_of(nodes, parents, rank, cur as int);
                    (x + w.0, y + w.1, z + w.2) == world_of(nodes, parents, rank, id as int)
                }),
                chain_fits(nodes, parents, rank, id as int, (0, 0, 0)) == chain_fits(
                    nodes,
                    parents,
                    rank,
                    cur as int,
                    (x as int, y as int, z as int),
                ),
            decreases rank[cur as int],
        {
            let t = self.nodes[cur].transform;
            let nx = x.checked_add(t.x as i64);
            let ny = y.checked_add(t.y as i64);
            let nz = z.checked_add(t.z as i64);
            if nx.is_none() || ny.is_none() || nz.is_none() {
                return None;
            }
            x = nx.unwrap();
            y = ny.unwrap();
            z = nz.unwrap();
            match self.parents[cur] {
                None => {
                    return Some((x, y, z));
                },
                Some(q) => {
                    assert(parents[cur as int] is Some);
                    cur = q;
                },
            }
        }
    }

    /// Makes `child` the last child of `parent`.
    pub fn link(&mut self, parent: usize, child: usize) -> (r: Result<(), LinkError>)
        requires
            old(self).well_formed(),
            parent < old(self).spec_nodes().len(),
            child < old(self).spec_nodes().len(),
        ensures
            final(self).well_formed(),
            final(self).spec_nodes() == old(self).spec_nodes(),
            final(self).spec_meshes() == old(self).spec_meshes(),
            final(self).spec_materials() == old(self).spec_materials(),
            final(self).spec_lights() == old(self).spec_lights(),
            final(self).spec_atmosphere() == old(self).spec_atmosphere(),
            r == Err::<(), LinkError>(LinkError::AlreadyParented) ==> old(self).spec_parents()[child as int] is Some,
            r == Err::<(), LinkError>(LinkError::WouldCycle) ==> descends(
                old(self).spec_parents(),
                parent as int,
                child as int,
            ),
            old(self).spec_parents()[child as int] is Some ==> r == Err::<(), LinkError>(
                LinkError::AlreadyParented,
            ),
            old(self).spec_parents()[child as int] is None && descends(
                old(self).spec_parents(),
                parent as int,
                child as int,
            ) ==> r == Err::<(), LinkError>(LinkError::WouldCycle),
            r is Err ==> final(self).spec_parents() == old(self).spec_parents()
                && final(self).spec_children() == old(self).spec_children(),
            r is Ok ==> {
                &&& old(self).spec_parents()[child as int] is None
                &&& !descends(old(self).spec_parents(), parent as int, child as int)
                &&& final(self).spec_parents() == old(self).spec_parents().update(
                    child as int,
                    Some(parent),
                )
                &&& final(self).spec_children() == old(self).spec_children().update(
                    parent as int,
                    old(self).spec_children()[parent as int].push(child),
                )
            },
    {
        let ghost par_before = self.parents@;
        let ghost ch0 = self.spec_children();
        let ghost rank0 = self.rank@;
        if self.parents[child].is_some() {
            return Err(LinkError::AlreadyParented);
        }
        let mut cur = parent;
        let ghost mut k: nat = 0;
        loop
            invariant
                self.well_formed(),
                self.parents@ == par_before,
                rank0 == self.rank@,
                cur < par_before.len(),
                child < par_before.len(),
                ancestor(par_before, parent as int, k) == Some(cur as int),
                par_before[child as int] is None,
                forall|m: nat| m < k ==> ancestor(par_before, parent as int, m) != Some(child as int),
            ensures
                !descends(par_before, parent as int, child as int),
            decreases rank0[cur as int],
        {
            if cur == child {
                assert(descends(par_before, parent as int, child as int));
                return Err(LinkError::WouldCycle);
            }
            proof {
                lemma_ancestor_step(par_before, parent as int, k, cur as int);
            }
            match self.parents[cur] {
                None => {
                    proof {
                        assert forall|m: nat| ancestor(par_before, parent as int, m) != Some(child as int) by {
                            if m > k {
                                lemma_none_beyond(par_before, parent as int, k + 1, m);
                            }
                        }
                    }
                    break ;
                },
                Some(q) => {
                    cur = q;
                    proof {
                        k = k + 1;
                    }
                },
            }
        }
        assert(!descends(par_before, parent as int, child as int));
        let mut kids: Vec<usize> = Vec::new();
        let mut t: usize = 0;
        let len = self.children[parent].len();
        while t < len
            invariant
                self.well_formed(),
                self.parents@ == par_before,
                parent < par_before.len(),
                len == self.children@[parent as int]@.len(),
                0 <= t <= len,
                kids@ == self.children@[parent as int]@.subrange(0, t as int),
            decreases len - t,
        {
            kids.push(self.children[parent][t]);
            t = t + 1;
            assert(kids@ =~= self.children@[parent as int]@.subrange(0, t as int));
        }
        assert(kids@ =~= ch0[parent as int]);
        kids.push(child);
        self.children.set(parent, kids);
        self.parents.set(child, Some(parent));
        let ghost shift = rank0[parent as int] + 1;
        self.rank = Ghost(
            Seq::new(
                rank0.len(),
                |j: int|
                    if descends(par_before, j, child as int) {
                        (rank0[j] + shift) as nat
                    } else {
                        rank0[j]
                    },
            ),
        );
        proof {
            let par_after = self.parents@;
            let ch1 = self.spec_children();
            let rank1 = self.rank@;
            assert(ch1 =~= ch0.update(parent as int, ch0[parent as int].push(child)));
            assert(par_after =~= par_before.update(child as int, Some(parent)));
            // The child is in no child list yet.
            assert forall|i: int| 0 <= i < ch0.len() implies !(#[trigger] ch0[i]).contains(child) by {
                if ch0[i].contains(child) {
                    let k2 = choose|k2: int| 0 <= k2 < ch0[i].len() && ch0[i][k2] == child;
                    assert(par_before[ch0[i][k2] as int] == Some(i as usize));
                }
            }
            assert(ancestor(par_before, child as int, 0) == Some(child as int));
            assert forall|i: int, k2: int|
                0 <= i < ch1.len() && 0 <= k2 < ch1[i].len() implies {
                    &&& #[trigger] ch1[i][k2] < par_after.len()
                    &&& par_after[ch1[i][k2] as int] == Some(i as usize)
                } by {
                if i == parent as int && k2 == ch0[i].len() {
                } else {
                    assert(ch1[i][k2] == ch0[i][k2]);
                    assert(ch0[i].contains(ch0[i][k2]));
                }
            }
            assert forall|j: int|
                0 <= j < par_after.len() && (#[trigger] par_after[j]) is Some implies {
                    &&& par_after[j]->0 < par_after.len()
                    &&& ch1[par_after[j]->0 as int].contains(j as usize)
                } by {
                if j == child as int {
                    assert(ch1[parent as int].last() == child);
                } else {
                    assert(par_after[j] == par_before[j]);
                    let q = par_before[j]->0 as int;
                    if q == parent as int {
                        let k3 = choose|k3: int| 0 <= k3 < ch0[q].len() && ch0[q][k3] == j as usize;
                        assert(ch1[q][k3] == j as usize);
                    }
                }
            }
            assert forall|i: int| 0 <= i < ch1.len() implies (#[trigger] ch1[i]).no_duplicates() by {
                if i == parent as int {
                    assert(ch0[i].no_duplicates());
                    assert(!ch0[i].contains(child));
                    assert forall|a: int, b: int| 0 <= a < ch1[i].len() && 0 <= b < ch1[i].len() && a != b implies ch1[i][a] != ch1[i][b] by {
                        if a < ch0[i].len() && b < ch0[i].len() {
                        } else if a < ch0[i].len() {
                            assert(ch0[i].contains(ch1[i][a]));
                        } else {
                            assert(ch0[i].contains(ch1[i][b]));
                        }
                    }
                } else {
                    assert(ch1[i] == ch0[i]);
                }
            }
            assert forall|j: int|
                0 <= j < par_after.len() && (#[trigger] par_after[j]) is Some implies par_after[j]->0 < par_after.len()
                && rank1[par_after[j]->0 as int] < rank1[j] by {
                if j == child as int {
                    assert(descends(par_before, child as int, child as int));
                } else {
                    let q = par_before[j]->0 as int;
                    assert(par_after[j] == par_before[j]);
                    if descends(par_before, j, child as int) {
                        let w = choose|w: nat| ancestor(par_before, j, w) == Some(child as int);
                        assert(w > 0);
                        assert(ancestor(par_before, q, (w - 1) as nat) == Some(child as int));
                        assert(descends(par_before, q, child as int));
                    }
                    if descends(par_before, q, child as int) {
                        let w = choose|w: nat| ancestor(par_before, q, w) == Some(child as int);
                        assert(ancestor(par_before, j, w + 1) == Some(child as int));
                        assert(descends(par_before, j, child as int));
                    }
                }
            }
            assert forall|i: int| 0 <= i < self.nodes@.len() implies self.handles_resolve(#[trigger] self.nodes@[i]) by {
            }
        }
        Ok(())
    }
}

proof fn lemma_ancestor_step(parents: Seq<Option<usize>>, i: int, k: nat, c: int)
    requires
        ancestor(parents, i, k) == Some(c),
        0 <= c < parents.len(),
    ensures
        ancestor(parents, i, k + 1) == (if parents[c] is Some {
            Some(parents[c]->0 as int)
        } else {
            None::<int>
        }),
    decreases k,
{
    if k > 0 {
        lemma_ancestor_step(parents, parents[i]->0 as int, (k - 1) as nat, c);
    } else {
        assert(ancestor(parents, i, 1) == if parents[i] is Some {
            ancestor(parents, parents[i]->0 as int, 0)
        } else {
            None::<int>
        });
    }
}

proof fn lemma_none_stays(parents: Seq<Option<usize>>, i: int, m: nat)
    requires
        ancestor(parents, i, m) is None,
    ensures
        ancestor(parents, i, m + 1) is None,
    decreases m,
{
    if m > 0 && 0 <= i < parents.len() && parents[i] is Some {
        lemma_none_stays(parents, parents[i]->0 as int, (m - 1) as nat);
    }
}

proof fn lemma_none_beyond(parents: Seq<Option<usize>>, i: int, k: nat, m: nat)
    requires
        ancestor(parents, i, k) is None,
        k <= m,
    ensures
        ancestor(parents, i, m) is None,
    decreases m - k,
{
    if k < m {
        lemma_none_stays(parents, i, k);
        lemma_none_beyond(parents, i, k + 1, m);
    }
}

proof fn lemma_rank_falls(parents: Seq<Option<usize>>, rank: Seq<nat>, i: int, k: nat, j: int)
    requires
        ranked(parents, rank),
        0 <= i < parents.len(),
        k > 0,
        ancestor(parents, i, k) == Some(j),
    ensures
        0 <= j < parents.len(),
        rank[j] < rank[i],
    decreases k,
{
    let q = parents[i]->0 as int;
    assert(parents[i] is Some);
    if k > 1 {
        lemma_rank_falls(parents, rank, q, (k - 1) as nat, j);
    }
}

/// The world translation of a node is its own translation composed with the
/// world translation of its parent; a root's is its own.
pub proof fn lemma_world_of_child(s: Scene, i: int)
    requires
        s.well_formed(),
        0 <= i < s.spec_nodes().len(),
    ensures
        s.spec_parents()[i] is None ==> s.spec_world(i) == local_offset(s.spec_nodes()[i]),
        s.spec_parents()[i] matches Some(q) ==> {
            let own = local_offset(s.spec_nodes()[i]);
            let w = s.spec_world(q as int);
            s.spec_world(i) == (own.0 + w.0, own.1 + w.1, own.2 + w.2)
        },
{
    if s.parents@[i] is Some {
        assert(s.parents@[i] is Some);
    }
}

/// A well-formed scene is a forest: parent links and child lists agree, each
/// node has at most one parent, and no node is its own ancestor.
pub proof fn lemma_scene_is_forest(s: Scene)
    requires
        s.well_formed(),
    ensures
        links_consistent(s.spec_parents(), s.spec_children()),
        acyclic(s.spec_parents()),
        s.spec_nodes().len() == s.spec_parents().len(),
{
    assert forall|i: int, k: nat| 0 <= i < s.spec_parents().len() && k > 0 implies #[trigger] ancestor(
        s.spec_parents(),
        i,
        k,
    ) != Some(i) by {
        if ancestor(s.spec_parents(), i, k) == Some(i) {
            lemma_rank_falls(s.parents@, s.rank@, i, k, i);
        }
    }
}

} // verus!
