use vstd::prelude::*;

use crate::animation::{sample_at, Channel, Sampled, UnsupportedAnimationFeature};
use crate::builder::{
    build_graph, grown, kept, preorder, tree_ok, tree_walk, ImportError, SourceNode,
};
use crate::matrix::quat_in_unit_range;
use crate::scene::{node_applied, LookupError, Node, NodeGraph};
use crate::transform::{apply_sampled, Transform};

verus! {

/// The part of a material that drawing reads: the texture of its base colour, if any.
#[derive(Clone, Copy, Debug, PartialEq, Eq, Structural)]
pub struct Material {
    pub base_color_texture: Option<usize>,
}

/// The channels of one animation clip.
#[derive(Debug)]
pub struct Animation {
    pub channels: Vec<Channel>,
}

/// The node graphs of one scene, one per top-level node.
#[derive(Debug)]
pub struct Scene {
    pub node_graphs: Vec<NodeGraph>,
}

/// A channel that the sampler could not evaluate.
#[derive(Clone, Copy, Debug, PartialEq, Eq, Structural)]
pub struct ChannelFault {
    pub animation: usize,
    pub channel: usize,
    pub feature: UnsupportedAnimationFeature,
}

/// An imported asset: its textures, materials, scenes and animations.
#[derive(Debug)]
pub struct GltfAsset {
    pub texture_ids: Vec<u32>,
    pub materials: Vec<Material>,
    pub scenes: Vec<Scene>,
    pub animations: Vec<Animation>,
}

/// The (target, value) updates of the channels `chs`, in order, leaving out those the
/// sampler does not evaluate.
pub open spec fn channel_updates(chs: Seq<Channel>, t: u64) -> Seq<(usize, Sampled)>
    decreases chs.len(),
{
    if chs.len() == 0 {
        seq![]
    } else {
        let prev = channel_updates(chs.drop_last(), t);
        let c = chs.last();
        match sample_at(c.inputs(), c.transformations(), c.interpolation(), t) {
            Ok(v) => prev.push((c.target(), v)),
            Err(_) => prev,
        }
    }
}

/// The updates of all animations, animation after animation.
pub open spec fn animation_updates(anims: Seq<Animation>, t: u64) -> Seq<(usize, Sampled)>
    decreases anims.len(),
{
    if anims.len() == 0 {
        seq![]
    } else {
        animation_updates(anims.drop_last(), t) + channel_updates(anims.last().channels@, t)
    }
}

/// The faults of the channels `chs` of animation `a`, in order.
pub open spec fn channel_faults(chs: Seq<Channel>, a: usize, t: u64) -> Seq<ChannelFault>
    decreases chs.len(),
{
    if chs.len() == 0 {
        seq![]
    } else {
        let prev = channel_faults(chs.drop_last(), a, t);
        let c = chs.last();
        match sample_at(c.inputs(), c.transformations(), c.interpolation(), t) {
            Ok(_) => prev,
            Err(e) => prev.push(
                ChannelFault { animation: a, channel: (chs.len() - 1) as usize, feature: e },
            ),
        }
    }
}

/// The faults of all animations, animation after animation.
pub open spec fn animation_faults(anims: Seq<Animation>, t: u64) -> Seq<ChannelFault>
    decreases anims.len(),
{
    if anims.len() == 0 {
        seq![]
    } else {
        animation_faults(anims.drop_last(), t) + channel_faults(
            anims.last().channels@,
            (anims.len() - 1) as usize,
            t,
        )
    }
}

/// The override `tr` of a node with source index `idx` after the updates `ups`, in order.
pub open spec fn apply_updates(tr: Transform, idx: usize, ups: Seq<(usize, Sampled)>) -> Transform
    decreases ups.len(),
{
    if ups.len() == 0 {
        tr
    } else {
        let prev = apply_updates(tr, idx, ups.drop_last());
        if ups.last().0 == idx {
            apply_sampled(prev, ups.last().1)
        } else {
            prev
        }
    }
}

/// `new` is `old` with every node's override updated by `ups`.
pub open spec fn graph_updated(old: NodeGraph, new: NodeGraph, ups: Seq<(usize, Sampled)>) -> bool {
    &&& new.wf()
    &&& new.parents() == old.parents()
    &&& new.nodes().len() == old.nodes().len()
    &&& forall|j: int|
        0 <= j < old.nodes().len() ==> #[trigger] new.nodes()[j] == Node {
            animation_transform: apply_updates(
                old.nodes()[j].animation_transform,
                old.nodes()[j].index,
                ups,
            ),
            ..old.nodes()[j]
        }
}

/// `new` is `old` with every graph updated by `ups`.
pub open spec fn scene_updated(old: Scene, new: Scene, ups: Seq<(usize, Sampled)>) -> bool {
    &&& new.node_graphs@.len() == old.node_graphs@.len()
    &&& forall|g: int|
        0 <= g < old.node_graphs@.len() ==> graph_updated(
            old.node_graphs@[g],
            #[trigger] new.node_graphs@[g],
            ups,
        )
}

/// `new` is `old` with every scene updated by `ups`.
pub open spec fn scenes_updated(old: Seq<Scene>, new: Seq<Scene>, ups: Seq<(usize, Sampled)>) -> bool {
    &&& new.len() == old.len()
    &&& forall|s: int| 0 <= s < old.len() ==> scene_updated(old[s], #[trigger] new[s], ups)
}

/// Every channel of the animation is well formed.
pub open spec fn animation_wf(a: Animation) -> bool {
    forall|c: int| 0 <= c < a.channels@.len() ==> (#[trigger] a.channels@[c]).wf()
}

/// Every graph of the scene is well formed.
pub open spec fn scene_wf(s: Scene) -> bool {
    forall|g: int| 0 <= g < s.node_graphs@.len() ==> (#[trigger] s.node_graphs@[g]).wf()
}

/// The channels of `new` are those of `old`, each with its cursor moved by sampling at `t`.
pub open spec fn same_tracks(old: Seq<Channel>, new: Seq<Channel>, t: u64) -> bool {
    &&& new.len() == old.len()
    &&& forall|c: int|
        0 <= c < old.len() ==> {
            &&& (#[trigger] new[c]).wf()
            &&& new[c].target() == old[c].target()
            &&& new[c].inputs() == old[c].inputs()
            &&& new[c].transformations() == old[c].transformations()
            &&& new[c].interpolation() == old[c].interpolation()
            &&& (new[c].cursor_key(), new[c].cursor_time()) == old[c].cursor_after(t)
        }
}

proof fn lemma_updated_step(old: NodeGraph, mid: NodeGraph, new: NodeGraph, ups: Seq<(usize, Sampled)>, target: usize, value: Sampled)
    requires
        graph_updated(old, mid, ups),
        new.wf(),
        new.parents() == mid.parents(),
        new.nodes().len() == mid.nodes().len(),
        forall|j: int|
            0 <= j < mid.nodes().len() ==> #[trigger] new.nodes()[j] == node_applied(
                mid.nodes()[j],
                target,
                value,
            ),
    ensures
        graph_updated(old, new, ups.push((target, value))),
{
    let ups2 = ups.push((target, value));
    assert(ups2.drop_last() =~= ups);
    assert forall|j: int| 0 <= j < old.nodes().len() implies #[trigger] new.nodes()[j] == Node {
        animation_transform: apply_updates(
            old.nodes()[j].animation_transform,
            old.nodes()[j].index,
            ups2,
        ),
        ..old.nodes()[j]
    } by {
        assert(mid.nodes()[j] == Node {
            animation_transform: apply_updates(
                old.nodes()[j].animation_transform,
                old.nodes()[j].index,
                ups,
            ),
            ..old.nodes()[j]
        });
    }
}

impl Animation {
    /// Samples every channel at `seconds`, in order.
    pub fn sample(&mut self, seconds: u64) -> (r: Vec<Result<Sampled, UnsupportedAnimationFeature>>)
        requires
            animation_wf(*old(self)),
        ensures
            same_tracks(old(self).channels@, final(self).channels@, seconds),
            r@.len() == old(self).channels@.len(),
            forall|c: int|
                0 <= c < r@.len() ==> #[trigger] r@[c] == sample_at(
                    old(self).channels@[c].inputs(),
                    old(self).channels@[c].transformations(),
                    old(self).channels@[c].interpolation(),
                    seconds,
                ),
            forall|c: int|
                0 <= c < r@.len() ==> (#[trigger] r@[c] matches Ok(Sampled::Rotation(q))
                    ==> quat_in_unit_range(q)),
    {
        let n = self.channels.len();
        let mut out: Vec<Result<Sampled, UnsupportedAnimationFeature>> = Vec::new();
        let mut c: usize = 0;
        while c < n
            invariant
                n == old(self).channels@.len(),
                self.channels@.len() == n,
                0 <= c <= n,
                out@.len() == c,
                same_tracks(old(self).channels@.subrange(0, c as int), self.channels@.subrange(0, c as int), seconds),
                forall|k: int| c <= k < n ==> #[trigger] self.channels@[k] == old(self).channels@[k],
                forall|k: int| c <= k < n ==> (#[trigger] old(self).channels@[k]).wf(),
                forall|k: int|
                    0 <= k < c ==> #[trigger] out@[k] == sample_at(
                        old(self).channels@[k].inputs(),
                        old(self).channels@[k].transformations(),
                        old(self).channels@[k].interpolation(),
                        seconds,
                    ),
                forall|k: int|
                    0 <= k < c ==> (#[trigger] out@[k] matches Ok(Sampled::Rotation(q))
                        ==> quat_in_unit_range(q)),
            decreases n - c,
        {
            let ghost before = self.channels@;
            let v = self.channels[c].sample(seconds);
            out.push(v);
            proof {
                assert forall|k: int| 0 <= k < c + 1 implies {
                    &&& (#[trigger] self.channels@.subrange(0, c + 1)[k]).wf()
                    &&& self.channels@.subrange(0, c + 1)[k].target() == old(self).channels@.subrange(0, c + 1)[k].target()
                    &&& self.channels@.subrange(0, c + 1)[k].inputs() == old(self).channels@.subrange(0, c + 1)[k].inputs()
                    &&& self.channels@.subrange(0, c + 1)[k].transformations() == old(self).channels@.subrange(0, c + 1)[k].transformations()
                    &&& self.channels@.subrange(0, c + 1)[k].interpolation() == old(self).channels@.subrange(0, c + 1)[k].interpolation()
                    &&& (self.channels@.subrange(0, c + 1)[k].cursor_key(), self.channels@.subrange(0, c + 1)[k].cursor_time()) == old(self).channels@.subrange(0, c + 1)[k].cursor_after(seconds)
                } by {
                    if k < c {
                        assert(self.channels@[k] == before[k]);
                        assert(before.subrange(0, c as int)[k] == before[k]);
                        assert(old(self).channels@.subrange(0, c as int)[k] == old(self).channels@[k]);
                    }
                }
                assert(out@[c as int] == v);
            }
            c += 1;
        }
        proof {
            assert(self.channels@.subrange(0, n as int) =~= self.channels@);
            assert(old(self).channels@.subrange(0, n as int) =~= old(self).channels@);
        }
        out
    }
}

impl Scene {
    /// Updates, in every graph, the nodes whose source index is `target`.
    pub(crate) fn apply(&mut self, target: usize, value: Sampled, Ghost(base): Ghost<Scene>, Ghost(ups): Ghost<Seq<(usize, Sampled)>>)
        requires
            scene_updated(base, *old(self), ups),
            value matches Sampled::Rotation(q) ==> quat_in_unit_range(q),
        ensures
            scene_updated(base, *final(self), ups.push((target, value))),
    {
        let n = self.node_graphs.len();
        let mut g: usize = 0;
        while g < n
            invariant
                n == base.node_graphs@.len(),
                self.node_graphs@.len() == n,
                0 <= g <= n,
                value matches Sampled::Rotation(q) ==> quat_in_unit_range(q),
                forall|k: int|
                    0 <= k < g ==> graph_updated(
                        base.node_graphs@[k],
                        #[trigger] self.node_graphs@[k],
                        ups.push((target, value)),
                    ),
                forall|k: int|
                    g <= k < n ==> graph_updated(
                        base.node_graphs@[k],
                        #[trigger] self.node_graphs@[k],
                        ups,
                    ),
            decreases n - g,
        {
            let ghost mid = self.node_graphs@[g as int];
            assert(graph_updated(base.node_graphs@[g as int], mid, ups));
            self.node_graphs[g].apply(target, value);
            proof {
                lemma_updated_step(
                    base.node_graphs@[g as int],
                    mid,
                    self.node_graphs@[g as int],
                    ups,
                    target,
                    value,
                );
            }
            g += 1;
        }
    }
}

fn apply_to_scenes(
    scenes: &mut Vec<Scene>,
    target: usize,
    value: Sampled,
    Ghost(base): Ghost<Seq<Scene>>,
    Ghost(ups): Ghost<Seq<(usize, Sampled)>>,
)
    requires
        scenes_updated(base, old(scenes)@, ups),
        value matches Sampled::Rotation(q) ==> quat_in_unit_range(q),
    ensures
        scenes_updated(base, final(scenes)@, ups.push((target, value))),
{
    let n = scenes.len();
    let mut s: usize = 0;
    while s < n
        invariant
            n == base.len(),
            scenes@.len() == n,
            0 <= s <= n,
            value matches Sampled::Rotation(q) ==> quat_in_unit_range(q),
            forall|k: int|
                0 <= k < s ==> scene_updated(base[k], #[trigger] scenes@[k], ups.push((target, value))),
            forall|k: int| s <= k < n ==> scene_updated(base[k], #[trigger] scenes@[k], ups),
        decreases n - s,
    {
        scenes[s].apply(target, value, Ghost(base[s as int]), Ghost(ups));
        s += 1;
    }
}

proof fn lemma_updates_extend(anims: Seq<Animation>, a: int, t: u64)
    requires
        0 <= a < anims.len(),
    ensures
        animation_updates(anims.subrange(0, a + 1), t) == animation_updates(anims.subrange(0, a), t)
            + channel_updates(anims[a].channels@, t),
        animation_faults(anims.subrange(0, a + 1), t) == animation_faults(anims.subrange(0, a), t)
            + channel_faults(anims[a].channels@, a as usize, t),
{
    assert(anims.subrange(0, a + 1).drop_last() =~= anims.subrange(0, a));
}

proof fn lemma_channel_extend(chs: Seq<Channel>, a: usize, c: int, t: u64)
    requires
        0 <= c < chs.len(),
    ensures
        channel_updates(chs.subrange(0, c + 1), t) == match sample_at(
            chs[c].inputs(),
            chs[c].transformations(),
            chs[c].interpolation(),
            t,
        ) {
            Ok(v) => channel_updates(chs.subrange(0, c), t).push((chs[c].target(), v)),
            Err(_) => channel_updates(chs.subrange(0, c), t),
        },
        channel_faults(chs.subrange(0, c + 1), a, t) == match sample_at(
            chs[c].inputs(),
            chs[c].transformations(),
            chs[c].interpolation(),
            t,
        ) {
            Ok(_) => channel_faults(chs.subrange(0, c), a, t),
            Err(e) => channel_faults(chs.subrange(0, c), a, t).push(
                ChannelFault { animation: a, channel: c as usize, feature: e },
            ),
        },
{
    assert(chs.subrange(0, c + 1).drop_last() =~= chs.subrange(0, c));
}

proof fn lemma_scenes_updated_refl(scenes: Seq<Scene>)
    requires
        forall|s: int| 0 <= s < scenes.len() ==> scene_wf(#[trigger] scenes[s]),
    ensures
        scenes_updated(scenes, scenes, seq![]),
{
    assert forall|s: int| 0 <= s < scenes.len() implies scene_updated(scenes[s], #[trigger] scenes[s], seq![]) by {
        assert(scene_wf(scenes[s]));
        assert forall|g: int| 0 <= g < scenes[s].node_graphs@.len() implies graph_updated(
            scenes[s].node_graphs@[g],
            #[trigger] scenes[s].node_graphs@[g],
            seq![],
        ) by {
            let gr = scenes[s].node_graphs@[g];
            assert forall|j: int| 0 <= j < gr.nodes().len() implies #[trigger] gr.nodes()[j] == Node {
                animation_transform: apply_updates(gr.nodes()[j].animation_transform, gr.nodes()[j].index, seq![]),
                ..gr.nodes()[j]
            } by {}
        }
    }
}

proof fn lemma_untargeted_updates(tr: Transform, idx: usize, ups: Seq<(usize, Sampled)>)
    requires
        forall|k: int| 0 <= k < ups.len() ==> (#[trigger] ups[k]).0 != idx,
    ensures
        apply_updates(tr, idx, ups) == tr,
    decreases ups.len(),
{
    if ups.len() > 0 {
        lemma_untargeted_updates(tr, idx, ups.drop_last());
        assert(ups.last() == ups[ups.len() - 1]);
    }
}

proof fn lemma_channel_targets(chs: Seq<Channel>, idx: usize, t: u64)
    requires
        forall|c: int| 0 <= c < chs.len() ==> (#[trigger] chs[c]).target() != idx,
    ensures
        forall|k: int| 0 <= k < channel_updates(chs, t).len() ==> (#[trigger] channel_updates(chs, t)[k]).0 != idx,
    decreases chs.len(),
{
    if chs.len() > 0 {
        lemma_channel_targets(chs.drop_last(), idx, t);
        assert(chs.last() == chs[chs.len() - 1]);
        let prev = channel_updates(chs.drop_last(), t);
        let c = chs.last();
        match sample_at(c.inputs(), c.transformations(), c.interpolation(), t) {
            Ok(v) => {
                assert forall|k: int| 0 <= k < prev.push((c.target(), v)).len() implies (#[trigger] prev.push((c.target(), v))[k]).0 != idx by {
                    if k < prev.len() {
                        assert(prev.push((c.target(), v))[k] == prev[k]);
                    }
                }
            },
            Err(_) => {},
        }
    }
}

proof fn lemma_animation_targets(anims: Seq<Animation>, idx: usize, t: u64)
    requires
        forall|a: int, c: int|
            0 <= a < anims.len() && 0 <= c < anims[a].channels@.len() ==> (#[trigger] anims[a].channels@[c]).target() != idx,
    ensures
        forall|k: int| 0 <= k < animation_updates(anims, t).len() ==> (#[trigger] animation_updates(anims, t)[k]).0 != idx,
    decreases anims.len(),
{
    if anims.len() > 0 {
        lemma_animation_targets(anims.drop_last(), idx, t);
        let a = anims.len() - 1;
        assert(anims.last() == anims[a]);
        assert forall|c: int| 0 <= c < anims[a].channels@.len() implies (#[trigger] anims[a].channels@[c]).target() != idx by {}
        lemma_channel_targets(anims[a].channels@, idx, t);
        let prev = animation_updates(anims.drop_last(), t);
        let last = channel_updates(anims[a].channels@, t);
        assert forall|k: int| 0 <= k < (prev + last).len() implies (#[trigger] (prev + last)[k]).0 != idx by {
            if k >= prev.len() {
                assert((prev + last)[k] == last[k - prev.len()]);
            }
        }
    }
}

/// A node whose source index no channel targets keeps its animation override, whatever the
/// time: advancing the animations leaves it as it was.
pub proof fn lemma_untargeted_node_keeps_override(
    anims: Seq<Animation>,
    t: u64,
    tr: Transform,
    idx: usize,
)
    requires
        forall|a: int, c: int|
            0 <= a < anims.len() && 0 <= c < anims[a].channels@.len() ==> (#[trigger] anims[a].channels@[c]).target() != idx,
    ensures
        apply_updates(tr, idx, animation_updates(anims, t)) == tr,
{
    lemma_animation_targets(anims, idx, t);
    lemma_untargeted_updates(tr, idx, animation_updates(anims, t));
}

impl GltfAsset {
    pub open spec fn wf(&self) -> bool {
        &&& forall|a: int| 0 <= a < self.animations@.len() ==> animation_wf(#[trigger] self.animations@[a])
        &&& forall|s: int| 0 <= s < self.scenes@.len() ==> scene_wf(#[trigger] self.scenes@[s])
    }

    /// Advances every animation to time `seconds`: each channel is sampled, and the value is
    /// written into the override of every node, in every scene, whose source index the
    /// channel targets, channel after channel. Channels that the sampler does not evaluate
    /// are reported and change nothing.
    pub fn animate(&mut self, seconds: u64) -> (r: Vec<ChannelFault>)
        requires
            old(self).wf(),
        ensures
            r@ == animation_faults(old(self).animations@, seconds),
            scenes_updated(
                old(self).scenes@,
                final(self).scenes@,
                animation_updates(old(self).animations@, seconds),
            ),
            final(self).animations@.len() == old(self).animations@.len(),
            forall|a: int|
                0 <= a < old(self).animations@.len() ==> same_tracks(
                    old(self).animations@[a].channels@,
                    #[trigger] final(self).animations@[a].channels@,
                    seconds,
                ),
            final(self).texture_ids == old(self).texture_ids,
            final(self).materials == old(self).materials,
    {
        let ghost anims0 = self.animations@;
        let ghost scenes0 = self.scenes@;
        proof {
            lemma_scenes_updated_refl(scenes0);
        }
        let mut faults: Vec<ChannelFault> = Vec::new();
        let n = self.animations.len();
        let mut a: usize = 0;
        while a < n
            invariant
                n == anims0.len(),
                anims0 == old(self).animations@,
                scenes0 == old(self).scenes@,
                self.texture_ids == old(self).texture_ids,
                self.materials == old(self).materials,
                self.animations@.len() == n,
                0 <= a <= n,
                forall|k: int| 0 <= k < a ==> same_tracks(anims0[k].channels@, #[trigger] self.animations@[k].channels@, seconds),
                forall|k: int| a <= k < n ==> #[trigger] self.animations@[k] == anims0[k],
                forall|k: int| 0 <= k < n ==> animation_wf(#[trigger] anims0[k]),
                scenes_updated(scenes0, self.scenes@, animation_updates(anims0.subrange(0, a as int), seconds)),
                faults@ == animation_faults(anims0.subrange(0, a as int), seconds),
            decreases n - a,
        {
            let results = self.animations[a].sample(seconds);
            let ghost chs0 = anims0[a as int].channels@;
            let ghost base_ups = animation_updates(anims0.subrange(0, a as int), seconds);
            let ghost base_faults = animation_faults(anims0.subrange(0, a as int), seconds);
            let m = results.len();
            let ghost anims_mid = self.animations@;
            let mut c: usize = 0;
            while c < m
                invariant
                    self.animations@ == anims_mid,
                    self.texture_ids == old(self).texture_ids,
                    self.materials == old(self).materials,
                    m == chs0.len(),
                    results@.len() == m,
                    a < n,
                    n == anims0.len(),
                    self.animations@.len() == n,
                    chs0 == anims0[a as int].channels@,
                    same_tracks(chs0, self.animations@[a as int].channels@, seconds),
                    forall|k: int|
                        0 <= k < m ==> #[trigger] results@[k] == sample_at(
                            chs0[k].inputs(),
                            chs0[k].transformations(),
                            chs0[k].interpolation(),
                            seconds,
                        ),
                    forall|k: int|
                        0 <= k < m ==> (#[trigger] results@[k] matches Ok(Sampled::Rotation(q))
                            ==> quat_in_unit_range(q)),
                    0 <= c <= m,
                    scenes_updated(scenes0, self.scenes@, base_ups + channel_updates(chs0.subrange(0, c as int), seconds)),
                    faults@ == base_faults + channel_faults(chs0.subrange(0, c as int), a, seconds),
                decreases m - c,
            {
                proof {
                    lemma_channel_extend(chs0, a, c as int, seconds);
                }
                let target = self.animations[a].channels[c].node_index();
                match results[c] {
                    Ok(v) => {
                        let ghost ups = base_ups + channel_updates(chs0.subrange(0, c as int), seconds);
                        apply_to_scenes(&mut self.scenes, target, v, Ghost(scenes0), Ghost(ups));
                        proof {
                            assert(ups.push((target, v)) =~= base_ups + channel_updates(chs0.subrange(0, c + 1), seconds));
                        }
                    },
                    Err(e) => {
                        faults.push(ChannelFault { animation: a, channel: c, feature: e });
                        proof {
                            assert(faults@ =~= base_faults + channel_faults(chs0.subrange(0, c + 1), a, seconds));
                        }
                    },
                }
                c += 1;
            }
            proof {
                assert(chs0.subrange(0, m as int) =~= chs0);
                lemma_updates_extend(anims0, a as int, seconds);
            }
            a += 1;
        }
        proof {
            assert(anims0.subrange(0, n as int) =~= anims0);
        }
        faults
    }
}

/// The table left after building the trees of the first `k` roots, one after another.
pub open spec fn scene_table(t: Seq<Option<SourceNode>>, roots: Seq<usize>, k: int) -> Seq<
    Option<SourceNode>,
>
    decreases k,
{
    if k <= 0 {
        t
    } else {
        tree_walk(scene_table(t, roots, k - 1), roots[k - 1]).2
    }
}

/// Each root's entries form a tree, and no tree reaches an entry that an earlier one took.
pub open spec fn scene_ok(t: Seq<Option<SourceNode>>, roots: Seq<usize>) -> bool {
    forall|k: int| 0 <= k < roots.len() ==> #[trigger] tree_ok(scene_table(t, roots, k), roots[k])
}

/// Builds one node graph for each of `roots`, in order, from the scene's node table. It
/// fails, as malformed, exactly when a root's entries do not form a tree or two trees share
/// an entry.
pub fn prepare_scene(table: Vec<Option<SourceNode>>, roots: &Vec<usize>) -> (r: Result<Scene, ImportError>)
    ensures
        r is Ok <==> scene_ok(table@, roots@),
        r matches Err(e) ==> e == ImportError::Malformed,
        r matches Ok(scene) ==> {
            &&& scene.node_graphs@.len() == roots@.len()
            &&& scene_wf(scene)
            &&& forall|k: int|
                0 <= k < roots@.len() ==> {
                    let g = #[trigger] scene.node_graphs@[k];
                    &&& g.nodes().len() >= 1
                    &&& g.nodes()[0].index == roots@[k]
                    &&& grown(table@, g, 0, preorder(scene_table(table@, roots@, k), roots@[k]))
                }
        },
{
    let ghost start = table@;
    let mut remaining = table;
    let mut node_graphs: Vec<NodeGraph> = Vec::new();
    let mut k: usize = 0;
    while k < roots.len()
        invariant
            0 <= k <= roots@.len(),
            node_graphs@.len() == k,
            start == table@,
            remaining@ == scene_table(start, roots@, k as int),
            kept(start, remaining@),
            forall|j: int| 0 <= j < k ==> #[trigger] tree_ok(scene_table(start, roots@, j), roots@[j]),
            forall|j: int|
                0 <= j < k ==> {
                    let g = #[trigger] node_graphs@[j];
                    &&& g.wf()
                    &&& g.nodes().len() >= 1
                    &&& g.nodes()[0].index == roots@[j]
                    &&& grown(start, g, 0, preorder(scene_table(start, roots@, j), roots@[j]))
                },
        decreases roots@.len() - k,
    {
        let ghost before = remaining@;
        let g = match build_graph(&mut remaining, roots[k]) {
            Ok(g) => g,
            Err(e) => {
                proof {
                    assert(!tree_ok(scene_table(start, roots@, k as int), roots@[k as int]));
                    assert(!scene_ok(start, roots@));
                }
                return Err(e);
            },
        };
        proof {
            crate::builder::lemma_grown_kept(start, before, g, 0, preorder(before, roots@[k as int]));
            crate::builder::lemma_kept_trans(start, before, remaining@);
            assert(scene_table(start, roots@, k + 1) == tree_walk(before, roots@[k as int]).2);
        }
        node_graphs.push(g);
        k += 1;
    }
    Ok(Scene { node_graphs })
}

impl GltfAsset {
    /// The material at `index`.
    pub fn lookup_material(&self, index: usize) -> (r: Result<Material, LookupError>)
        ensures
            index < self.materials@.len() ==> r == Ok::<Material, LookupError>(self.materials@[index as int]),
            index >= self.materials@.len() ==> r == Err::<Material, LookupError>(LookupError::Material(index)),
    {
        if index < self.materials.len() {
            Ok(self.materials[index])
        } else {
            Err(LookupError::Material(index))
        }
    }
}

} // verus!
