use vstd::prelude::*;

use crate::matrix::{quat_in_unit_range, Mat4, Quat, Vec3};
use crate::scene::{Mesh, Node, NodeGraph, Skin};
use crate::transform::{no_override, transform_matrix, Transform};

verus! {

/// Why an asset cannot be imported.
#[derive(Clone, Copy, Debug, PartialEq, Eq, Structural)]
pub enum ImportError {
    /// The file does not exist.
    NotFound,
    /// The container, or the node hierarchy it describes, is not well formed.
    Malformed,
    /// An image has a pixel format outside the supported ones.
    UnsupportedFeature,
    /// A primitive has no position data.
    MissingPositions,
}

/// A node's local transform as the source gives it: a matrix, or translation, rotation and
/// scale.
#[derive(Clone, Copy, Debug, PartialEq, Eq)]
pub enum LocalTransform {
    Matrix(Mat4),
    Decomposed { translation: Vec3, rotation: Quat, scale: Vec3 },
}

/// One entry of the source document's node table, with its decoded mesh and skin.
#[derive(Debug)]
pub struct SourceNode {
    pub transform: LocalTransform,
    pub mesh: Option<Mesh>,
    pub skin: Option<Skin>,
    /// The node-table indices of the node's children, in source order.
    pub children: Vec<usize>,
}

/// The decomposed parts of a local transform as an override-shaped value.
pub open spec fn decomposed(translation: Vec3, rotation: Quat, scale: Vec3) -> Transform {
    Transform { translation: Some(translation), rotation: Some(rotation), scale: Some(scale) }
}

/// A local transform is usable: a rotation lies in the unit range.
pub open spec fn local_ok(t: LocalTransform) -> bool {
    match t {
        LocalTransform::Matrix(_) => true,
        LocalTransform::Decomposed { rotation, .. } => quat_in_unit_range(rotation),
    }
}

/// The matrix of a local transform: the matrix itself, or `T * R * S`.
pub open spec fn local_matrix(t: LocalTransform) -> Seq<i64> {
    match t {
        LocalTransform::Matrix(m) => m.m@,
        LocalTransform::Decomposed { translation, rotation, scale } => transform_matrix(
            decomposed(translation, rotation, scale),
        ),
    }
}

/// A source node can stand in a graph: usable local transform and well-formed skin.
pub open spec fn source_ok(n: SourceNode) -> bool {
    &&& local_ok(n.transform)
    &&& match n.skin {
        Some(s) => s.wf(),
        None => true,
    }
}

/// The local transform as a matrix; a rotation outside the unit range is malformed.
pub fn determine_transform(t: &LocalTransform) -> (r: Result<Mat4, ImportError>)
    ensures
        local_ok(*t) <==> r is Ok,
        r matches Ok(m) ==> m.m@ == local_matrix(*t),
        r matches Err(e) ==> e == ImportError::Malformed,
{
    match t {
        LocalTransform::Matrix(m) => Ok(*m),
        LocalTransform::Decomposed { translation, rotation, scale } => {
            let q = *rotation;
            let crate::matrix::Quat { x, y, z, w } = q;
            let one = crate::fixed::ONE;
            if !(-one <= x && x <= one && -one <= y && y <= one && -one <= z && z <= one && -one
                <= w && w <= one) {
                return Err(ImportError::Malformed);
            }
            let tr = Transform {
                translation: Some(*translation),
                rotation: Some(q),
                scale: Some(*scale),
            };
            Ok(tr.matrix())
        },
    }
}

fn skin_ok(skin: &Option<Skin>) -> (r: bool)
    ensures
        r == match *skin {
            Some(s) => s.wf(),
            None => true,
        },
{
    match skin {
        Some(s) => match &s.inverse_bind_matrices {
            Some(m) => m.len() == s.joint_indices.len(),
            None => true,
        },
        None => true,
    }
}

/// Entry `p` of the table lists `c` among its children.
#[verifier::opaque]
pub open spec fn child_of(table: Seq<Option<SourceNode>>, p: usize, c: usize) -> bool {
    &&& 0 <= p < table.len()
    &&& table[p as int] is Some
    &&& table[p as int]->Some_0.children@.contains(c)
}

/// `n` is the graph node made from its entry of `table`.
pub open spec fn made_from(table: Seq<Option<SourceNode>>, n: Node) -> bool {
    &&& n.index < table.len()
    &&& table[n.index as int] is Some
    &&& n.transform.m@ == local_matrix(table[n.index as int]->Some_0.transform)
    &&& n.mesh == table[n.index as int]->Some_0.mesh
    &&& n.skin == table[n.index as int]->Some_0.skin
    &&& n.animation_transform == no_override()
}

/// The number of filled slots.
pub open spec fn filled(table: Seq<Option<SourceNode>>) -> nat
    decreases table.len(),
{
    if table.len() == 0 {
        0
    } else {
        filled(table.drop_last()) + if table.last() is Some {
            1nat
        } else {
            0nat
        }
    }
}

proof fn lemma_filled_take(table: Seq<Option<SourceNode>>, i: int)
    requires
        0 <= i < table.len(),
        table[i] is Some,
    ensures
        filled(table.update(i, None)) + 1 == filled(table),
    decreases table.len(),
{
    if i < table.len() - 1 {
        lemma_filled_take(table.drop_last(), i);
        assert(table.update(i, None).drop_last() =~= table.drop_last().update(i, None));
    } else {
        assert(table.update(i, None).drop_last() =~= table.drop_last());
    }
}

proof fn lemma_filled_le(table: Seq<Option<SourceNode>>)
    ensures
        filled(table) <= table.len(),
    decreases table.len(),
{
    if table.len() > 0 {
        lemma_filled_le(table.drop_last());
    }
}

/// Takes entry `src` out of the table and turns it into a graph node with its children's
/// indices.
fn take_node(table: &mut Vec<Option<SourceNode>>, src: usize) -> (r: Result<
    (Node, Vec<usize>),
    ImportError,
>)
    ensures
        final(table)@.len() == old(table)@.len(),
        r matches Err(e) ==> e == ImportError::Malformed,
        r is Ok <==> (src < old(table)@.len() && old(table)@[src as int] is Some && source_ok(
            old(table)@[src as int]->Some_0,
        )),
        filled(final(table)@) <= filled(old(table)@),
        r is Ok ==> {
            let (n, children) = r->Ok_0;
            &&& src < old(table)@.len()
            &&& old(table)@[src as int] is Some
            &&& final(table)@ == old(table)@.update(src as int, None)
            &&& filled(final(table)@) + 1 == filled(old(table)@)
            &&& n.wf()
            &&& n.index == src
            &&& n.transform.m@ == local_matrix(old(table)@[src as int]->Some_0.transform)
            &&& n.mesh == old(table)@[src as int]->Some_0.mesh
            &&& n.skin == old(table)@[src as int]->Some_0.skin
            &&& n.animation_transform == no_override()
            &&& children == old(table)@[src as int]->Some_0.children
        },
        r is Err ==> forall|s: int|
            0 <= s < old(table)@.len() && (#[trigger] final(table)@[s]) is Some ==> final(table)@[s]
                == old(table)@[s],
{
    if src >= table.len() {
        return Err(ImportError::Malformed);
    }
    let ghost before = table@;
    let slot = table[src].take();
    assert(table@ == before.update(src as int, None));
    match slot {
        None => {
            assert(table@ =~= before);
            Err(ImportError::Malformed)
        },
        Some(sn) => {
            proof {
                lemma_filled_take(before, src as int);
            }
            let transform = match determine_transform(&sn.transform) {
                Ok(m) => m,
                Err(e) => {
                    return Err(e);
                },
            };
            if !skin_ok(&sn.skin) {
                return Err(ImportError::Malformed);
            }
            let SourceNode { transform: _, mesh, skin, children } = sn;
            let node = Node {
                transform,
                animation_transform: Transform::default(),
                mesh,
                skin,
                index: src,
            };
            Ok((node, children))
        },
    }
}

/// The depth-first walk of the table from entry `src`, taking each entry it reaches out of
/// the table. It gives whether every entry reached exists, is usable and is reached only
/// once; the entries in the order reached, each before its children and children in source
/// order; and the table left behind. `fuel` bounds the depth.
pub open spec fn walk(t: Seq<Option<SourceNode>>, src: usize, fuel: nat) -> (
    bool,
    Seq<usize>,
    Seq<Option<SourceNode>>,
)
    decreases fuel, 0int,
{
    if fuel > 0 && src < t.len() && t[src as int] is Some && source_ok(t[src as int]->Some_0) {
        let w = walk_list(
            t.update(src as int, None),
            t[src as int]->Some_0.children@,
            0,
            (fuel - 1) as nat,
        );
        (w.0, seq![src] + w.1, w.2)
    } else {
        (false, seq![], t)
    }
}

/// The walks from the children `cs[i..]`, one after another, stopping at the first failure.
pub open spec fn walk_list(t: Seq<Option<SourceNode>>, cs: Seq<usize>, i: int, fuel: nat) -> (
    bool,
    Seq<usize>,
    Seq<Option<SourceNode>>,
)
    decreases fuel, cs.len() - i,
{
    if i < 0 || i >= cs.len() {
        (true, seq![], t)
    } else {
        let w = walk(t, cs[i], fuel);
        if !w.0 {
            (false, w.1, w.2)
        } else {
            let rest = walk_list(w.2, cs, i + 1, fuel);
            (rest.0, w.1 + rest.1, rest.2)
        }
    }
}

/// The walk from `root`, with depth enough for any tree that the table can hold.
pub open spec fn tree_walk(t: Seq<Option<SourceNode>>, root: usize) -> (
    bool,
    Seq<usize>,
    Seq<Option<SourceNode>>,
) {
    walk(t, root, (t.len() + 1) as nat)
}

/// The entries reachable from `root` form a tree: each exists, is usable (`source_ok`) and
/// is reached only once.
pub open spec fn tree_ok(t: Seq<Option<SourceNode>>, root: usize) -> bool {
    tree_walk(t, root).0
}

/// The entries of the tree under `root` in pre-order, children in source order.
pub open spec fn preorder(t: Seq<Option<SourceNode>>, root: usize) -> Seq<usize> {
    tree_walk(t, root).1
}

/// The filled slots of `t2` hold what they hold in `t1`.
pub open spec fn kept(t1: Seq<Option<SourceNode>>, t2: Seq<Option<SourceNode>>) -> bool {
    &&& t2.len() == t1.len()
    &&& forall|s: int| 0 <= s < t1.len() && (#[trigger] t2[s]) is Some ==> t2[s] == t1[s]
}

/// Nodes `n0..` of `g` are the entries `order` of `t`, made from them, and each after the
/// first sits below an earlier one of them whose entry lists it as a child.
pub open spec fn grown(t: Seq<Option<SourceNode>>, g: NodeGraph, n0: int, order: Seq<usize>) -> bool {
    &&& g.nodes().len() == n0 + order.len()
    &&& forall|k: int|
        0 <= k < order.len() ==> (#[trigger] g.nodes()[n0 + k]).index == order[k] && made_from(
            t,
            g.nodes()[n0 + k],
        )
    &&& forall|j: int|
        n0 < j < g.nodes().len() ==> n0 <= #[trigger] g.parents()[j] < j && child_of(
            t,
            g.nodes()[g.parents()[j] as int].index,
            g.nodes()[j].index,
        )
}

/// Keeping filled slots is transitive.
pub proof fn lemma_kept_trans(
    t1: Seq<Option<SourceNode>>,
    t2: Seq<Option<SourceNode>>,
    t3: Seq<Option<SourceNode>>,
)
    requires
        kept(t1, t2),
        kept(t2, t3),
    ensures
        kept(t1, t3),
{
    assert forall|s: int| 0 <= s < t1.len() && (#[trigger] t3[s]) is Some implies t3[s] == t1[s] by {
        assert(t2[s] is Some);
    }
}

/// What is grown from a table is grown from any table whose filled slots it keeps.
pub proof fn lemma_grown_kept(
    t1: Seq<Option<SourceNode>>,
    t2: Seq<Option<SourceNode>>,
    g: NodeGraph,
    n0: int,
    order: Seq<usize>,
)
    requires
        kept(t1, t2),
        grown(t2, g, n0, order),
    ensures
        grown(t1, g, n0, order),
{
    reveal(child_of);
    assert forall|k: int| 0 <= k < order.len() implies (#[trigger] g.nodes()[n0 + k]).index
        == order[k] && made_from(t1, g.nodes()[n0 + k]) by {
        let n = g.nodes()[n0 + k];
        assert(t2[n.index as int] == t1[n.index as int]);
    }
    assert forall|j: int| n0 < j < g.nodes().len() implies n0 <= #[trigger] g.parents()[j] < j
        && child_of(t1, g.nodes()[g.parents()[j] as int].index, g.nodes()[j].index) by {
        let p = g.nodes()[g.parents()[j] as int].index;
        assert(t2[p as int] == t1[p as int]);
    }
}

proof fn lemma_grown_join(
    t: Seq<Option<SourceNode>>,
    g_old: NodeGraph,
    g: NodeGraph,
    n0: int,
    a: Seq<usize>,
    o: Seq<usize>,
)
    requires
        0 <= n0,
        a.len() >= 1,
        grown(t, g_old, n0, a),
        g.nodes().len() >= g_old.nodes().len(),
        forall|k: int|
            0 <= k < g_old.nodes().len() ==> #[trigger] g.nodes()[k] == g_old.nodes()[k]
                && g.parents()[k] == g_old.parents()[k],
        grown(t, g, n0 + a.len(), o),
        o.len() >= 1 ==> g.parents()[n0 + a.len()] == n0 && child_of(
            t,
            g.nodes()[n0].index,
            g.nodes()[n0 + a.len()].index,
        ),
    ensures
        grown(t, g, n0, a + o),
{
    let base = n0 + a.len();
    assert forall|k: int| 0 <= k < (a + o).len() implies (#[trigger] g.nodes()[n0 + k]).index == (a
        + o)[k] && made_from(t, g.nodes()[n0 + k]) by {
        if k < a.len() {
            assert(g.nodes()[n0 + k] == g_old.nodes()[n0 + k]);
        } else {
            assert(g.nodes()[base + (k - a.len())] == g.nodes()[n0 + k]);
        }
    }
    assert forall|j: int| n0 < j < g.nodes().len() implies n0 <= #[trigger] g.parents()[j] < j
        && child_of(t, g.nodes()[g.parents()[j] as int].index, g.nodes()[j].index) by {
        if j < base {
            assert(g.parents()[j] == g_old.parents()[j]);
            assert(g.nodes()[j] == g_old.nodes()[j]);
            assert(g.nodes()[g.parents()[j] as int] == g_old.nodes()[g_old.parents()[j] as int]);
        } else if j == base {
        } else {
        }
    }
}

/// Visits entry `src` and its subtree, adding each node, under `parent` for the first,
/// before its children.
fn visit(
    table: &mut Vec<Option<SourceNode>>,
    g: &mut NodeGraph,
    src: usize,
    parent: usize,
    Ghost(fuel): Ghost<nat>,
) -> (ok: bool)
    requires
        old(g).wf(),
        old(g).nodes().len() == 0 || parent < old(g).nodes().len(),
        fuel > filled(old(table)@),
        old(g).nodes().len() + filled(old(table)@) <= old(table)@.len(),
    ensures
        final(g).wf(),
        kept(old(table)@, final(table)@),
        final(g).nodes().len() >= old(g).nodes().len(),
        final(g).nodes().len() + filled(final(table)@) <= old(g).nodes().len() + filled(
            old(table)@,
        ),
        forall|k: int|
            0 <= k < old(g).nodes().len() ==> #[trigger] final(g).nodes()[k] == old(g).nodes()[k]
                && final(g).parents()[k] == old(g).parents()[k],
        ok == walk(old(table)@, src, fuel).0,
        ok ==> final(table)@ == walk(old(table)@, src, fuel).2,
        ok ==> grown(
            old(table)@,
            *final(g),
            old(g).nodes().len() as int,
            walk(old(table)@, src, fuel).1,
        ),
        ok ==> final(g).parents()[old(g).nodes().len() as int] == if old(g).nodes().len() == 0 {
            0
        } else {
            parent
        },
    decreases fuel,
{
    let ghost t0 = table@;
    let ghost g0 = *g;
    let ghost n0 = g.nodes().len() as int;
    let _len = table.len();
    let (node, children) = match take_node(table, src) {
        Ok(p) => p,
        Err(_) => {
            return false;
        },
    };
    let ghost t1 = table@;
    let ghost f = (fuel - 1) as nat;
    assert(walk(t0, src, fuel) == {
        let w = walk_list(t1, children@, 0, f);
        (w.0, seq![src] + w.1, w.2)
    });
    let me = g.add_node(node, parent);
    proof {
        assert(grown(t0, *g, n0, seq![src]));
    }
    let ghost mut done: Seq<usize> = seq![];
    let mut i: usize = 0;
    while i < children.len()
        invariant
            0 <= i <= children@.len(),
            t0 == old(table)@,
            g0 == *old(g),
            n0 == old(g).nodes().len(),
            t0[src as int] is Some,
            children@ == t0[src as int]->Some_0.children@,
            t1 == t0.update(src as int, None),
            me == n0,
            0 <= n0 < g.nodes().len(),
            g.wf(),
            forall|k: int|
                0 <= k < n0 ==> #[trigger] g.nodes()[k] == g0.nodes()[k] && g.parents()[k]
                    == g0.parents()[k],
            g.parents()[n0] == if n0 == 0 {
                0
            } else {
                parent
            },
            kept(t0, table@),
            kept(t1, table@),
            filled(table@) <= filled(t1),
            filled(t1) + 1 == filled(t0),
            fuel > filled(t0),
            f == fuel - 1,
            g.nodes().len() + filled(table@) <= n0 + filled(t0),
            n0 + filled(t0) <= t0.len(),
            grown(t0, *g, n0, seq![src] + done),
            walk_list(t1, children@, 0, f) == {
                let w = walk_list(table@, children@, i as int, f);
                (w.0, done + w.1, w.2)
            },
        decreases children@.len() - i,
    {
        let ghost ti = table@;
        let ghost gi = *g;
        let ghost base = g.nodes().len() as int;
        let child = children[i];
        let ok = visit(table, g, child, me, Ghost(f));
        let ghost w = walk(ti, child, f);
        assert(walk_list(ti, children@, i as int, f) == if !w.0 {
            (false, w.1, w.2)
        } else {
            let rest = walk_list(w.2, children@, i + 1, f);
            (rest.0, w.1 + rest.1, rest.2)
        });
        if !ok {
            proof {
                lemma_kept_trans(t0, ti, table@);
                assert(g.nodes().len() >= gi.nodes().len());
            }
            return false;
        }
        proof {
            lemma_kept_trans(t0, ti, table@);
            lemma_kept_trans(t1, ti, table@);
        }
        proof {
            lemma_grown_kept(t0, ti, *g, base, w.1);
            reveal(child_of);
            assert(children@.contains(children@[i as int]));
            assert(g.nodes()[n0] == gi.nodes()[n0]);
            assert(gi.nodes()[n0 + 0].index == (seq![src] + done)[0]);
            assert(g.nodes()[n0].index == src);
            assert(base == n0 + (seq![src] + done).len());
            assert(w.1[0] == child);
            assert(g.nodes()[base + 0].index == w.1[0]);
            assert(g.parents()[base] == n0);
            assert(child_of(t0, src, child));
            lemma_grown_join(t0, gi, *g, n0, seq![src] + done, w.1);
            assert(seq![src] + done + w.1 =~= seq![src] + (done + w.1));
            let rest = walk_list(w.2, children@, i + 1, f);
            assert(done + (w.1 + rest.1) =~= (done + w.1) + rest.1);
            done = done + w.1;
        }
        i += 1;
    }
    proof {
        assert(walk_list(table@, children@, i as int, f) == (true, Seq::<usize>::empty(), table@));
        assert(done + Seq::<usize>::empty() =~= done);
    }
    true
}

/// Builds the tree whose root is entry `root` of the node table, adding the nodes in
/// pre-order, each before its children and children in source order. Each entry used is
/// taken out of the table. It fails, as malformed, exactly when the entries reachable from
/// `root` do not form a tree of usable entries.
pub fn build_graph(table: &mut Vec<Option<SourceNode>>, root: usize) -> (r: Result<
    NodeGraph,
    ImportError,
>)
    ensures
        kept(old(table)@, final(table)@),
        r is Ok <==> tree_ok(old(table)@, root),
        r matches Err(e) ==> e == ImportError::Malformed,
        r matches Ok(g) ==> {
            &&& g.wf()
            &&& final(table)@ == tree_walk(old(table)@, root).2
            &&& grown(old(table)@, g, 0, preorder(old(table)@, root))
            &&& g.nodes().len() >= 1
            &&& g.nodes()[0].index == root
        },
{
    let _len = table.len();
    proof {
        lemma_filled_le(table@);
    }
    let mut g = NodeGraph::new();
    let ok = visit(table, &mut g, root, 0, Ghost((table@.len() + 1) as nat));
    if ok {
        proof {
            assert(preorder(old(table)@, root)[0] == root);
            assert(g.nodes()[0int + 0int].index == preorder(old(table)@, root)[0]);
        }
        Ok(g)
    } else {
        Err(ImportError::Malformed)
    }
}

} // verus!
