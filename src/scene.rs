use vstd::prelude::*;

use crate::animation::Sampled;
use crate::matrix::{affine_inverse, identity, mat_mul, Mat4};
use crate::transform::{apply_sampled, no_override, transform_matrix, Transform};

verus! {

/// One drawable batch: the handle of its uploaded geometry, its index count and material.
#[derive(Clone, Copy, Debug, PartialEq, Eq)]
pub struct Primitive {
    pub geometry: u32,
    pub num_indices: usize,
    pub material_index: Option<usize>,
}

/// The primitives of a mesh, in source order.
#[derive(Debug)]
pub struct Mesh {
    pub primitives: Vec<Primitive>,
}

/// The joints of a skin, by source node index, with their inverse bind matrices when the
/// source gives them (when it does not, each is the identity).
#[derive(Debug)]
pub struct Skin {
    pub inverse_bind_matrices: Option<Vec<Mat4>>,
    pub joint_indices: Vec<usize>,
}

impl Skin {
    /// When inverse bind matrices are present there is one per joint.
    pub open spec fn wf(&self) -> bool {
        match self.inverse_bind_matrices {
            Some(m) => m@.len() == self.joint_indices@.len(),
            None => true,
        }
    }
}

/// One node of a scene graph.
#[derive(Debug)]
pub struct Node {
    /// The static local transform.
    pub transform: Mat4,
    /// The animation override, written by the sampler.
    pub animation_transform: Transform,
    pub mesh: Option<Mesh>,
    pub skin: Option<Skin>,
    /// The node's index in the source document.
    pub index: usize,
}

impl Node {
    pub open spec fn wf(&self) -> bool {
        &&& self.animation_transform.wf()
        &&& match self.skin {
            Some(s) => s.wf(),
            None => true,
        }
    }
}

/// The node's static transform composed with its animation override.
pub open spec fn effective(n: Node) -> Seq<i64> {
    mat_mul(n.transform.m@, transform_matrix(n.animation_transform))
}

/// The node's static transform alone.
pub open spec fn static_local(n: Node) -> Seq<i64> {
    n.transform.m@
}

/// The world transform of node `i`: its parent's world transform times its own effective
/// transform, the root's being its effective transform.
pub open spec fn world(nodes: Seq<Node>, parents: Seq<usize>, i: int) -> Seq<i64>
    decreases i,
{
    if i <= 0 || parents[i] >= i {
        effective(nodes[i])
    } else {
        mat_mul(world(nodes, parents, parents[i] as int), effective(nodes[i]))
    }
}

/// The world transform of node `i` from static transforms alone.
pub open spec fn static_world(nodes: Seq<Node>, parents: Seq<usize>, i: int) -> Seq<i64>
    decreases i,
{
    if i <= 0 || parents[i] >= i {
        static_local(nodes[i])
    } else {
        mat_mul(static_world(nodes, parents, parents[i] as int), static_local(nodes[i]))
    }
}

/// Node `i` and all its ancestors carry no animation override.
pub open spec fn unanimated_chain(nodes: Seq<Node>, parents: Seq<usize>, i: int) -> bool
    decreases i,
{
    &&& nodes[i].animation_transform == no_override()
    &&& (i <= 0 || parents[i] >= i || unanimated_chain(nodes, parents, parents[i] as int))
}

/// Where a node and its ancestors carry no animation override, its world transform is the
/// one computed from the static transforms along its ancestor chain alone.
pub proof fn lemma_unanimated_world_is_static(nodes: Seq<Node>, parents: Seq<usize>, i: int)
    requires
        0 <= i < nodes.len(),
        nodes.len() == parents.len(),
        unanimated_chain(nodes, parents, i),
    ensures
        world(nodes, parents, i) == static_world(nodes, parents, i),
    decreases i,
{
    crate::transform::lemma_no_override_is_identity();
    crate::matrix::lemma_mul_identity(nodes[i].transform.m@);
    assert(effective(nodes[i]) == static_local(nodes[i]));
    if !(i <= 0 || parents[i] >= i) {
        lemma_unanimated_world_is_static(nodes, parents, parents[i] as int);
    }
}

/// A node or material index that names nothing.
#[derive(Clone, Copy, Debug, PartialEq, Eq, Structural)]
pub enum LookupError {
    Node(usize),
    Material(usize),
}

/// The first arena index at or after `from` whose node has source index `src` (the length
/// when there is none).
pub open spec fn find_node(nodes: Seq<Node>, src: usize, from: int) -> int
    decreases nodes.len() - from,
{
    if from < 0 || from >= nodes.len() {
        nodes.len() as int
    } else if nodes[from].index == src {
        from
    } else {
        find_node(nodes, src, from + 1)
    }
}

/// The matrix of joint `k` of `skin`, attached to node `i`: the inverse of node `i`'s world
/// transform, times the joint node's world transform, times the joint's inverse bind matrix
/// (the identity standing in when the skin has none).
pub open spec fn joint_matrix(nodes: Seq<Node>, parents: Seq<usize>, skin: Skin, i: int, k: int) -> Seq<
    i64,
> {
    let w = mat_mul(
        affine_inverse(world(nodes, parents, i)),
        world(nodes, parents, find_node(nodes, skin.joint_indices@[k], 0)),
    );
    match skin.inverse_bind_matrices {
        Some(m) => mat_mul(w, m@[k].m@),
        None => mat_mul(w, identity()),
    }
}

/// Without inverse bind matrices, each joint matrix uses the identity in their place: it is
/// the inverse of the skinned node's world transform times the joint node's world transform.
pub proof fn lemma_joint_matrix_without_inverse_bind(
    nodes: Seq<Node>,
    parents: Seq<usize>,
    skin: Skin,
    i: int,
    k: int,
)
    requires
        skin.inverse_bind_matrices is None,
    ensures
        joint_matrix(nodes, parents, skin, i, k) == mat_mul(
            mat_mul(
                affine_inverse(world(nodes, parents, i)),
                world(nodes, parents, find_node(nodes, skin.joint_indices@[k], 0)),
            ),
            identity(),
        ),
        joint_matrix(nodes, parents, skin, i, k) == mat_mul(
            affine_inverse(world(nodes, parents, i)),
            world(nodes, parents, find_node(nodes, skin.joint_indices@[k], 0)),
        ),
{
    let w = mat_mul(
        affine_inverse(world(nodes, parents, i)),
        world(nodes, parents, find_node(nodes, skin.joint_indices@[k], 0)),
    );
    crate::matrix::lemma_mul_identity(w);
}

/// Every joint of `skin` is a node of the graph.
pub open spec fn joints_found(nodes: Seq<Node>, skin: Skin) -> bool {
    forall|k: int|
        0 <= k < skin.joint_indices@.len() ==> #[trigger] find_node(
            nodes,
            skin.joint_indices@[k],
            0,
        ) < nodes.len()
}

/// Every node that has both a mesh and a skin has all its joints in the graph.
pub open spec fn all_joints_found(nodes: Seq<Node>) -> bool {
    forall|i: int|
        0 <= i < nodes.len() && (#[trigger] nodes[i]).mesh is Some && nodes[i].skin is Some
            ==> joints_found(nodes, nodes[i].skin->Some_0)
}

pub open spec fn primitive_count(n: Node) -> nat {
    match n.mesh {
        Some(m) => m.primitives@.len(),
        None => 0,
    }
}

/// The (arena index, primitive index) of each draw of the first `n` nodes, in arena order
/// and then in primitive order.
pub open spec fn draws(nodes: Seq<Node>, n: int) -> Seq<(int, int)>
    decreases n,
{
    if n <= 0 {
        seq![]
    } else {
        draws(nodes, n - 1) + Seq::new(primitive_count(nodes[n - 1]), |p: int| (n - 1, p))
    }
}

/// What is drawn for one primitive: the primitive, its world transform, and the joint
/// matrices of its node's skin.
#[derive(Debug)]
pub struct DrawCall {
    pub primitive: Primitive,
    pub world: Mat4,
    pub joint_matrices: Option<Vec<Mat4>>,
}

/// `d` is the draw of primitive `p` of node `i`.
pub open spec fn draw_matches(nodes: Seq<Node>, parents: Seq<usize>, d: DrawCall, i: int, p: int) -> bool {
    &&& nodes[i].mesh is Some && d.primitive == nodes[i].mesh->Some_0.primitives@[p]
    &&& d.world.m@ == world(nodes, parents, i)
    &&& match nodes[i].skin {
        None => d.joint_matrices is None,
        Some(s) => d.joint_matrices is Some && d.joint_matrices->Some_0@.len()
            == s.joint_indices@.len() && forall|k: int|
            0 <= k < s.joint_indices@.len() ==> #[trigger] d.joint_matrices->Some_0@[k].m@
                == joint_matrix(nodes, parents, s, i, k),
    }
}

/// `n` with its override updated by `value` when its source index is `target`.
pub open spec fn node_applied(n: Node, target: usize, value: Sampled) -> Node {
    if n.index == target {
        Node { animation_transform: apply_sampled(n.animation_transform, value), ..n }
    } else {
        n
    }
}

/// A tree of nodes stored in an arena: node 0 is the root, and every other node's parent
/// comes before it, so the arena order is the order of a depth-first pre-order walk.
#[derive(Debug)]
pub struct NodeGraph {
    nodes: Vec<Node>,
    parents: Vec<usize>,
}

impl NodeGraph {
    pub closed spec fn nodes(&self) -> Seq<Node> {
        self.nodes@
    }

    pub closed spec fn parents(&self) -> Seq<usize> {
        self.parents@
    }

    pub open spec fn wf(&self) -> bool {
        &&& self.nodes().len() == self.parents().len()
        &&& forall|i: int| 0 < i < self.parents().len() ==> #[trigger] self.parents()[i] < i
        &&& forall|i: int| 0 <= i < self.nodes().len() ==> #[trigger] self.nodes()[i].wf()
    }

    /// A graph with no node.
    pub fn new() -> (r: NodeGraph)
        ensures
            r.wf(),
            r.nodes().len() == 0,
    {
        NodeGraph { nodes: Vec::new(), parents: Vec::new() }
    }

    /// Adds a node under `parent` (the first node added is the root and takes no parent)
    /// and returns its arena index.
    pub fn add_node(&mut self, node: Node, parent: usize) -> (r: usize)
        requires
            old(self).wf(),
            node.wf(),
            old(self).nodes().len() == 0 || parent < old(self).nodes().len(),
            old(self).nodes().len() < usize::MAX,
        ensures
            final(self).wf(),
            r == old(self).nodes().len(),
            final(self).nodes() == old(self).nodes().push(node),
            final(self).parents() == old(self).parents().push(
                if r == 0 { 0 } else { parent },
            ),
    {
        let r = self.nodes.len();
        self.nodes.push(node);
        self.parents.push(if r == 0 { 0 } else { parent });
        r
    }

    pub fn len(&self) -> (r: usize)
        ensures
            r == self.nodes().len(),
    {
        self.nodes.len()
    }

    pub fn node(&self, i: usize) -> (r: &Node)
        requires
            i < self.nodes().len(),
        ensures
            *r == self.nodes()[i as int],
    {
        &self.nodes[i]
    }

    /// The arena index of node `i`'s parent (the root is its own).
    pub fn parent(&self, i: usize) -> (r: usize)
        requires
            i < self.parents().len(),
        ensures
            r == self.parents()[i as int],
    {
        self.parents[i]
    }

    /// The arena indices of node `i`'s children, in the order they were added.
    pub fn children(&self, i: usize) -> (r: Vec<usize>)
        requires
            self.wf(),
        ensures
            forall|k: int| 0 <= k < r@.len() ==> 0 < #[trigger] r@[k] < self.nodes().len()
                && self.parents()[r@[k] as int] == i,
            forall|j: int|
                0 < j < self.nodes().len() && #[trigger] self.parents()[j] == i ==> r@.contains(
                    j as usize,
                ),
            forall|a: int, b: int| 0 <= a < b < r@.len() ==> r@[a] < r@[b],
    {
        let mut r: Vec<usize> = Vec::new();
        if self.parents.len() == 0 {
            return r;
        }
        let mut j: usize = 1;
        while j < self.parents.len()
            invariant
                1 <= j <= self.parents@.len(),
                self.wf(),
                forall|k: int| 0 <= k < r@.len() ==> 0 < #[trigger] r@[k] < j
                    && self.parents()[r@[k] as int] == i,
                forall|m: int| 0 < m < j && #[trigger] self.parents()[m] == i ==> r@.contains(
                    m as usize,
                ),
                forall|a: int, b: int| 0 <= a < b < r@.len() ==> r@[a] < r@[b],
            decreases self.parents@.len() - j,
        {
            if self.parents[j] == i {
                let ghost before = r@;
                r.push(j);
                assert(r@[r@.len() - 1] == j);
                assert forall|m: int|
                    0 < m < j + 1 && #[trigger] self.parents()[m] == i implies r@.contains(
                    m as usize,
                ) by {
                    if m < j {
                        assert(before.contains(m as usize));
                        let k = choose|k: int| 0 <= k < before.len() && before[k] == m as usize;
                        assert(r@[k] == m as usize);
                    }
                }
            }
            j += 1;
        }
        r
    }

    /// Sets, on every node whose source index is `target`, the part of its override
    /// that `value` drives.
    pub fn apply(&mut self, target: usize, value: Sampled)
        requires
            old(self).wf(),
            value matches Sampled::Rotation(q) ==> crate::matrix::quat_in_unit_range(q),
        ensures
            final(self).wf(),
            final(self).parents() == old(self).parents(),
            final(self).nodes().len() == old(self).nodes().len(),
            forall|j: int|
                0 <= j < old(self).nodes().len() ==> #[trigger] final(self).nodes()[j]
                    == node_applied(old(self).nodes()[j], target, value),
    {
        let n = self.nodes.len();
        let mut j: usize = 0;
        while j < n
            invariant
                n == old(self).nodes@.len(),
                0 <= j <= n,
                self.nodes@.len() == n,
                self.parents@ == old(self).parents@,
                old(self).wf(),
                value matches Sampled::Rotation(q) ==> crate::matrix::quat_in_unit_range(q),
                forall|k: int|
                    0 <= k < j ==> #[trigger] self.nodes@[k] == (
                    if old(self).nodes@[k].index == target {
                        Node {
                            animation_transform: apply_sampled(
                                old(self).nodes@[k].animation_transform,
                                value,
                            ),
                            ..old(self).nodes@[k]
                        }
                    } else {
                        old(self).nodes@[k]
                    }),
                forall|k: int| j <= k < n ==> #[trigger] self.nodes@[k] == old(self).nodes@[k],
            decreases n - j,
        {
            if self.nodes[j].index == target {
                self.nodes[j].animation_transform.apply(value);
            }
            j += 1;
        }
        assert forall|i: int| 0 <= i < self.nodes().len() implies #[trigger] self.nodes()[i].wf() by {
            assert(old(self).nodes()[i].wf());
        }
    }

    /// The arena index of the first node with source index `src`.
    pub fn find(&self, src: usize) -> (r: Option<usize>)
        ensures
            r matches Some(i) ==> i == find_node(self.nodes(), src, 0) && i < self.nodes().len(),
            r is None ==> find_node(self.nodes(), src, 0) == self.nodes().len(),
    {
        let mut i: usize = 0;
        while i < self.nodes.len()
            invariant
                0 <= i <= self.nodes@.len(),
                find_node(self.nodes@, src, i as int) == find_node(self.nodes@, src, 0),
            decreases self.nodes@.len() - i,
        {
            if self.nodes[i].index == src {
                return Some(i);
            }
            i += 1;
        }
        None
    }

    fn skin_matrices(&self, skin: &Skin, node: usize, worlds: &Vec<Mat4>) -> (r: Result<Vec<Mat4>, LookupError>)
        requires
            self.wf(),
            node < self.nodes().len(),
            skin.wf(),
            worlds@.len() == self.nodes().len(),
            forall|i: int|
                0 <= i < worlds@.len() ==> #[trigger] worlds@[i].m@ == world(
                    self.nodes(),
                    self.parents(),
                    i,
                ),
        ensures
            r matches Ok(v) ==> (joints_found(self.nodes(), *skin) && v@.len()
                == skin.joint_indices@.len()) && forall|k: int|
                0 <= k < v@.len() ==> #[trigger] v@[k].m@ == joint_matrix(
                    self.nodes(),
                    self.parents(),
                    *skin,
                    node as int,
                    k,
                ),
            r matches Err(LookupError::Node(src)) ==> skin.joint_indices@.contains(src) && find_node(
                self.nodes(),
                src,
                0,
            ) == self.nodes().len(),
            !(r matches Err(LookupError::Material(_))),
            joints_found(self.nodes(), *skin) ==> r is Ok,
    {
        let inverse = worlds[node].affine_inverse();
        let mut out: Vec<Mat4> = Vec::new();
        let mut k: usize = 0;
        while k < skin.joint_indices.len()
            invariant
                self.wf(),
                skin.wf(),
                node < self.nodes().len(),
                inverse.m@ == affine_inverse(world(self.nodes(), self.parents(), node as int)),
                worlds@.len() == self.nodes().len(),
                forall|i: int|
                    0 <= i < worlds@.len() ==> #[trigger] worlds@[i].m@ == world(
                        self.nodes(),
                        self.parents(),
                        i,
                    ),
                0 <= k <= skin.joint_indices@.len(),
                out@.len() == k,
                forall|j: int|
                    0 <= j < k ==> #[trigger] find_node(self.nodes(), skin.joint_indices@[j], 0)
                        < self.nodes().len(),
                forall|j: int|
                    0 <= j < k ==> #[trigger] out@[j].m@ == joint_matrix(
                        self.nodes(),
                        self.parents(),
                        *skin,
                        node as int,
                        j,
                    ),
            decreases skin.joint_indices@.len() - k,
        {
            let src = skin.joint_indices[k];
            match self.find(src) {
                None => {
                    proof {
                        assert(skin.joint_indices@[k as int] == src);
                    }
                    return Err(LookupError::Node(src));
                },
                Some(i) => {
                    let w = inverse.mul(&worlds[i]);
                    let m = match &skin.inverse_bind_matrices {
                        Some(ibm) => w.mul(&ibm[k]),
                        None => w.mul(&Mat4::identity()),
                    };
                    out.push(m);
                },
            }
            k += 1;
        }
        Ok(out)
    }

    /// What to draw, in arena order of the nodes (for a graph from `build_graph`, the
    /// pre-order of the source tree, children in source order) and, within a node, in
    /// primitive order: each primitive with its world transform and the
    /// joint matrices of its node's skin. Fails when a joint of such a skin is not a node of
    /// the graph.
    pub fn draw_list(&self) -> (r: Result<Vec<DrawCall>, LookupError>)
        requires
            self.wf(),
        ensures
            r matches Ok(v) ==> v@.len() == draws(self.nodes(), self.nodes().len() as int).len()
                && forall|k: int|
                0 <= k < v@.len() ==> draw_matches(
                    self.nodes(),
                    self.parents(),
                    #[trigger] v@[k],
                    draws(self.nodes(), self.nodes().len() as int)[k].0,
                    draws(self.nodes(), self.nodes().len() as int)[k].1,
                ),
            !(r matches Err(LookupError::Material(_))),
            r matches Err(LookupError::Node(src)) ==> exists|i: int|
                0 <= i < self.nodes().len() && (#[trigger] self.nodes()[i]).mesh is Some
                    && self.nodes()[i].skin is Some
                    && self.nodes()[i].skin->Some_0.joint_indices@.contains(src)
                    && find_node(self.nodes(), src, 0) == self.nodes().len(),
            all_joints_found(self.nodes()) ==> r is Ok,
    {
        let worlds = self.world_transforms();
        let mut out: Vec<DrawCall> = Vec::new();
        let mut i: usize = 0;
        while i < self.nodes.len()
            invariant
                self.wf(),
                worlds@.len() == self.nodes().len(),
                forall|j: int|
                    0 <= j < worlds@.len() ==> #[trigger] worlds@[j].m@ == world(
                        self.nodes(),
                        self.parents(),
                        j,
                    ),
                0 <= i <= self.nodes@.len(),
                out@.len() == draws(self.nodes(), i as int).len(),
                forall|k: int|
                    0 <= k < out@.len() ==> draw_matches(
                        self.nodes(),
                        self.parents(),
                        #[trigger] out@[k],
                        draws(self.nodes(), i as int)[k].0,
                        draws(self.nodes(), i as int)[k].1,
                    ),
                all_joints_found(self.nodes()) ==> forall|j: int|
                    0 <= j < self.nodes().len() && (#[trigger] self.nodes()[j]).mesh is Some
                        && self.nodes()[j].skin is Some ==> joints_found(
                        self.nodes(),
                        self.nodes()[j].skin->Some_0,
                    ),
            decreases self.nodes@.len() - i,
        {
            let node = &self.nodes[i];
            let ghost before = draws(self.nodes(), i as int);
            assert(draws(self.nodes(), i + 1) == before + Seq::new(
                primitive_count(self.nodes()[i as int]),
                |p: int| (i as int, p),
            ));
            assert(self.nodes()[i as int].wf());
            if let Some(mesh) = &node.mesh {
                let mut p: usize = 0;
                while p < mesh.primitives.len()
                    invariant
                        self.wf(),
                        node == self.nodes()[i as int],
                        node.wf(),
                        node.mesh == Some(*mesh),
                        i < self.nodes().len(),
                        worlds@.len() == self.nodes().len(),
                        forall|j: int|
                            0 <= j < worlds@.len() ==> #[trigger] worlds@[j].m@ == world(
                                self.nodes(),
                                self.parents(),
                                j,
                            ),
                        before == draws(self.nodes(), i as int),
                        draws(self.nodes(), i + 1) == before + Seq::new(
                            mesh.primitives@.len(),
                            |q: int| (i as int, q),
                        ),
                        0 <= p <= mesh.primitives@.len(),
                        out@.len() == before.len() + p,
                        forall|k: int|
                            0 <= k < out@.len() ==> draw_matches(
                                self.nodes(),
                                self.parents(),
                                #[trigger] out@[k],
                                draws(self.nodes(), i + 1)[k].0,
                                draws(self.nodes(), i + 1)[k].1,
                            ),
                        all_joints_found(self.nodes()) ==> forall|j: int|
                            0 <= j < self.nodes().len() && (#[trigger] self.nodes()[j]).mesh is Some
                                && self.nodes()[j].skin is Some ==> joints_found(
                                self.nodes(),
                                self.nodes()[j].skin->Some_0,
                            ),
                    decreases mesh.primitives@.len() - p,
                {
                    let joint_matrices = match &node.skin {
                        Some(skin) => {
                            match self.skin_matrices(skin, i, &worlds) {
                                Ok(v) => Some(v),
                                Err(e) => {
                                    return Err(e);
                                },
                            }
                        },
                        None => None,
                    };
                    let d = DrawCall { primitive: mesh.primitives[p], world: worlds[i], joint_matrices };
                    out.push(d);
                    p += 1;
                }
            }
            i += 1;
        }
        Ok(out)
    }

    /// The world transform of every node, by arena index.
    pub fn world_transforms(&self) -> (r: Vec<Mat4>)
        requires
            self.wf(),
        ensures
            r@.len() == self.nodes().len(),
            forall|i: int|
                0 <= i < r@.len() ==> #[trigger] r@[i].m@ == world(
                    self.nodes(),
                    self.parents(),
                    i,
                ),
    {
        let mut r: Vec<Mat4> = Vec::new();
        let mut i: usize = 0;
        while i < self.nodes.len()
            invariant
                self.wf(),
                0 <= i <= self.nodes@.len(),
                r@.len() == i,
                forall|k: int|
                    0 <= k < i ==> #[trigger] r@[k].m@ == world(self.nodes(), self.parents(), k),
            decreases self.nodes@.len() - i,
        {
            let node = &self.nodes[i];
            assert(self.nodes()[i as int].wf());
            let local = node.transform.mul(&node.animation_transform.matrix());
            if i == 0 {
                r.push(local);
            } else {
                let p = self.parents[i];
                assert(p < i);
                let w = r[p].mul(&local);
                r.push(w);
            }
            i += 1;
        }
        r
    }
}

} // verus!
