//! What is built alongside an animation graph: the maps from node names
//! and clip names to graph nodes, and the bones of the mask groups.
use vstd::prelude::*;

use bevy::animation::graph::AnimationNodeIndex;
use bevy::animation::AnimationTargetId;
use bevy::platform::collections::HashMap;

use crate::bevy_types::{
    node_index_map, node_index_map_get, node_index_map_insert, node_index_map_new, node_index_value,
    path_names, target_id_from_path, target_id_of_path, target_id_value, target_map, target_map_get,
    target_map_insert, target_map_new,
};
use crate::graph_desc::{AnimeGraphCommand, AnimeGraphDesc, MaskGroup, MaskGroups, NodeDesc};
use crate::graph_plan::{node_name, GraphPlan, PlanStep};

verus! {

/// The nodes of a built graph, by node name and by clip name.
pub struct AnimationGraphHelper {
    /// Name of a node -> its index in the graph.
    node_id_to_idx: HashMap<String, AnimationNodeIndex>,
    /// Name of a clip -> the index of the node that plays it.
    clip_name_to_node_idx: HashMap<String, AnimationNodeIndex>,
}

impl AnimationGraphHelper {
    /// The node numbers by node name.
    pub closed spec fn node_ids(&self) -> Map<Seq<char>, u32> {
        node_index_map(self.node_id_to_idx)
    }

    /// The node numbers by clip name.
    pub closed spec fn clip_nodes(&self) -> Map<Seq<char>, u32> {
        node_index_map(self.clip_name_to_node_idx)
    }

    /// A helper made of the two maps.
    pub fn new(
        node_id_to_idx: HashMap<String, AnimationNodeIndex>,
        clip_name_to_node_idx: HashMap<String, AnimationNodeIndex>,
    ) -> (r: Self)
        ensures
            r.node_ids() == node_index_map(node_id_to_idx),
            r.clip_nodes() == node_index_map(clip_name_to_node_idx),
    {
        Self { node_id_to_idx, clip_name_to_node_idx }
    }

    /// The map from node names to graph nodes.
    pub fn node_id_to_idx(&self) -> (r: &HashMap<String, AnimationNodeIndex>)
        ensures
            node_index_map(*r) == self.node_ids(),
    {
        &self.node_id_to_idx
    }

    /// The map from clip names to graph nodes.
    pub fn clip_name_to_node_idx(&self) -> (r: &HashMap<String, AnimationNodeIndex>)
        ensures
            node_index_map(*r) == self.clip_nodes(),
    {
        &self.clip_name_to_node_idx
    }

    /// The graph node of the node called `name`, if there is one.
    pub fn node_index(&self, name: &String) -> (r: Option<AnimationNodeIndex>)
        ensures
            r is Some <==> self.node_ids().contains_key(name@),
            r matches Some(v) ==> node_index_value(v) == self.node_ids()[name@],
    {
        node_index_map_get(&self.node_id_to_idx, name)
    }

    /// The graph node that plays the clip called `name`, if there is one.
    pub fn clip_node_index(&self, name: &String) -> (r: Option<AnimationNodeIndex>)
        ensures
            r is Some <==> self.clip_nodes().contains_key(name@),
            r matches Some(v) ==> node_index_value(v) == self.clip_nodes()[name@],
    {
        node_index_map_get(&self.clip_name_to_node_idx, name)
    }

    /// The graph node that a command addresses, with what the command asks
    /// of it; `None` when no node carries the command's name.
    pub fn resolve_command<W: Copy>(&self, cmd: &AnimeGraphCommand<W>) -> (r: Option<
        (AnimationNodeIndex, NodeAction<W>),
    >)
        ensures
            r is Some <==> self.node_ids().contains_key(command_target(*cmd)),
            r matches Some((v, a)) ==> node_index_value(v) == self.node_ids()[command_target(*cmd)]
                && a == command_action(*cmd),
    {
        match cmd {
            AnimeGraphCommand::PlayRepeat(name) => match self.node_index(name) {
                Some(v) => Some((v, NodeAction::PlayRepeat)),
                None => None,
            },
            AnimeGraphCommand::StopPlay(name) => match self.node_index(name) {
                Some(v) => Some((v, NodeAction::StopPlay)),
                None => None,
            },
            AnimeGraphCommand::SetWeight(name, w) => match self.node_index(name) {
                Some(v) => Some((v, NodeAction::SetWeight(*w))),
                None => None,
            },
        }
    }
}

/// What a command asks of the node it addresses.
#[derive(Debug, Clone, Copy, PartialEq, Eq)]
pub enum NodeAction<W> {
    /// Play the node repeatedly, restarting it when it plays already.
    PlayRepeat,
    /// Stop the node when it plays.
    StopPlay,
    /// Set the node's weight.
    SetWeight(W),
}

/// The node name that a command addresses.
pub open spec fn command_target<W>(cmd: AnimeGraphCommand<W>) -> Seq<char> {
    match cmd {
        AnimeGraphCommand::PlayRepeat(n) => n@,
        AnimeGraphCommand::StopPlay(n) => n@,
        AnimeGraphCommand::SetWeight(n, _) => n@,
    }
}

/// What a command asks of the node it addresses.
pub open spec fn command_action<W>(cmd: AnimeGraphCommand<W>) -> NodeAction<W> {
    match cmd {
        AnimeGraphCommand::PlayRepeat(_) => NodeAction::PlayRepeat,
        AnimeGraphCommand::StopPlay(_) => NodeAction::StopPlay,
        AnimeGraphCommand::SetWeight(_, w) => NodeAction::SetWeight(w),
    }
}

// ---------------------------------------------------------------------------
// The maps of a built graph
// ---------------------------------------------------------------------------

/// The node map after the root and the first `k` steps: each name with the
/// number of its graph node.
pub open spec fn plan_node_map<W>(
    d: AnimeGraphDesc<W>,
    steps: Seq<PlanStep>,
    root: int,
    root_value: u32,
    values: Seq<u32>,
    k: int,
) -> Map<Seq<char>, u32>
    decreases k,
{
    if k <= 0 {
        Map::empty().insert(node_name(d, root), root_value)
    } else {
        plan_node_map(d, steps, root, root_value, values, k - 1).insert(
            node_name(d, steps[k - 1].node as int),
            values[k - 1],
        )
    }
}

/// The clip map after the first `k` steps: each clip with the number of the
/// last node so far that plays it.
pub open spec fn plan_clip_map<W>(d: AnimeGraphDesc<W>, steps: Seq<PlanStep>, values: Seq<u32>, k: int) -> Map<
    Seq<char>,
    u32,
>
    decreases k,
{
    if k <= 0 {
        Map::empty()
    } else {
        let m = plan_clip_map(d, steps, values, k - 1);
        match d.nodes@[steps[k - 1].node as int].1 {
            NodeDesc::Clip(c) => m.insert(c.clip@, values[k - 1]),
            _ => m,
        }
    }
}

/// The numbers of a list of graph node indices.
pub open spec fn index_values(v: Seq<AnimationNodeIndex>) -> Seq<u32> {
    v.map_values(|n: AnimationNodeIndex| node_index_value(n))
}

impl GraphPlan {
    /// The maps of the graph built by this plan, given the graph index of
    /// the root and the graph index that each step's node received.
    pub fn helper<W>(&self, desc: &AnimeGraphDesc<W>, root_index: AnimationNodeIndex, indices: &Vec<AnimationNodeIndex>) -> (r:
        AnimationGraphHelper)
        requires
            self.root < desc.nodes@.len(),
            indices@.len() == self.steps@.len(),
            forall|s: int| 0 <= s < self.steps@.len() ==> #[trigger] self.steps@[s].node < desc.nodes@.len(),
        ensures
            r.node_ids() == plan_node_map(
                *desc,
                self.steps@,
                self.root as int,
                node_index_value(root_index),
                index_values(indices@),
                self.steps@.len() as int,
            ),
            r.clip_nodes() == plan_clip_map(
                *desc,
                self.steps@,
                index_values(indices@),
                self.steps@.len() as int,
            ),
    {
        let ghost vals = index_values(indices@);
        let mut nodes = node_index_map_new();
        let mut clips = node_index_map_new();
        node_index_map_insert(&mut nodes, desc.nodes[self.root].0.clone(), root_index);
        proof {
            assert(node_index_map(nodes) =~= plan_node_map(*desc, self.steps@, self.root as int, node_index_value(root_index), vals, 0));
            assert(node_index_map(clips) =~= plan_clip_map(*desc, self.steps@, vals, 0));
        }
        let mut k: usize = 0;
        while k < self.steps.len()
            invariant
                k <= self.steps@.len(),
                indices@.len() == self.steps@.len(),
                vals == index_values(indices@),
                forall|s: int| 0 <= s < self.steps@.len() ==> #[trigger] self.steps@[s].node < desc.nodes@.len(),
                node_index_map(nodes) == plan_node_map(
                    *desc,
                    self.steps@,
                    self.root as int,
                    node_index_value(root_index),
                    vals,
                    k as int,
                ),
                node_index_map(clips) == plan_clip_map(*desc, self.steps@, vals, k as int),
            decreases self.steps.len() - k,
        {
            let step = self.steps[k];
            let idx = indices[k];
            node_index_map_insert(&mut nodes, desc.nodes[step.node].0.clone(), idx);
            match &desc.nodes[step.node].1 {
                NodeDesc::Clip(c) => {
                    node_index_map_insert(&mut clips, c.clip.clone(), idx);
                },
                _ => {},
            }
            k = k + 1;
        }
        AnimationGraphHelper::new(nodes, clips)
    }
}

// ---------------------------------------------------------------------------
// Bones and mask groups
// ---------------------------------------------------------------------------

/// The bones of one armature: each bone name with its path from the
/// armature's root. A bone name stands for one bone of the armature.
#[derive(Debug, Clone, Default)]
pub struct ArmatureBonePath {
    pub armature: String,
    pub bone_paths: Vec<(String, Vec<String>)>,
}

/// The bones of every armature of a scene.
#[derive(Debug, Clone, Default)]
pub struct SceneArmatureBonePaths {
    pub armature_bone_paths: Vec<ArmatureBonePath>,
}

/// The full path of bone `j` of an armature: the armature, then the path.
pub open spec fn full_bone_path(abp: ArmatureBonePath, j: int) -> Seq<Seq<char>> {
    seq![abp.armature@] + path_names(abp.bone_paths@[j].1@)
}

/// `m` with the first `j` bones of `abp` mapped to their targets.
pub open spec fn bones_into(m: Map<Seq<char>, u128>, abp: ArmatureBonePath, j: int) -> Map<Seq<char>, u128>
    decreases j,
{
    if j <= 0 {
        m
    } else {
        bones_into(m, abp, j - 1).insert(abp.bone_paths@[j - 1].0@, target_id_of_path(full_bone_path(abp, j - 1), usize::BITS))
    }
}

/// The bone targets of the first `k` armatures; a later bone of the same
/// name takes the place of an earlier one.
pub open spec fn bone_targets(abps: Seq<ArmatureBonePath>, k: int) -> Map<Seq<char>, u128>
    decreases k,
{
    if k <= 0 {
        Map::empty()
    } else {
        bones_into(bone_targets(abps, k - 1), abps[k - 1], abps[k - 1].bone_paths@.len() as int)
    }
}

/// The bone targets of a scene, if it has bones.
pub open spec fn scene_bone_targets(bones: Option<SceneArmatureBonePaths>) -> Map<Seq<char>, u128> {
    match bones {
        Some(b) => bone_targets(b.armature_bone_paths@, b.armature_bone_paths@.len() as int),
        None => Map::empty(),
    }
}

/// The (target, group) pairs of the first `k` targets of group `g`, for the
/// targets that are known bones.
pub open spec fn group_pairs(targets: Seq<String>, m: Map<Seq<char>, u128>, g: u32, k: int) -> Seq<(u128, u32)>
    decreases k,
{
    if k <= 0 {
        Seq::empty()
    } else {
        let s = group_pairs(targets, m, g, k - 1);
        if m.contains_key(targets[k - 1]@) {
            s.push((m[targets[k - 1]@], g))
        } else {
            s
        }
    }
}

/// The (target, group) pairs of the first `k` mask groups.
pub open spec fn mask_assignments(groups: Seq<MaskGroup>, m: Map<Seq<char>, u128>, k: int) -> Seq<(u128, u32)>
    decreases k,
{
    if k <= 0 {
        Seq::empty()
    } else {
        mask_assignments(groups, m, k - 1) + group_pairs(
            groups[k - 1].targets@,
            m,
            (k - 1) as u32,
            groups[k - 1].targets@.len() as int,
        )
    }
}

/// The bits of a list of (target, group) pairs.
pub open spec fn assignment_values(v: Seq<(AnimationTargetId, u32)>) -> Seq<(u128, u32)> {
    v.map_values(|p: (AnimationTargetId, u32)| (target_id_value(p.0), p.1))
}

/// The path of a bone from the scene: the armature, then the bone's path.
pub fn full_path(armature: &String, path: &Vec<String>) -> (r: Vec<String>)
    ensures
        path_names(r@) == seq![armature@] + path_names(path@),
{
    let mut names: Vec<String> = Vec::new();
    names.push(armature.clone());
    let mut k: usize = 0;
    while k < path.len()
        invariant
            k <= path@.len(),
            path_names(names@) == seq![armature@] + path_names(path@.take(k as int)),
        decreases path.len() - k,
    {
        let ghost before = names@;
        names.push(path[k].clone());
        proof {
            assert(path_names(names@) =~= path_names(before).push(path@[k as int]@));
            assert(path_names(path@.take(k + 1)) =~= path_names(path@.take(k as int)).push(path@[k as int]@));
        }
        k = k + 1;
    }
    proof {
        assert(path@.take(path@.len() as int) =~= path@);
    }
    names
}

/// Every bone of a scene with its full path, armature by armature.
pub fn bone_full_paths(bones: &SceneArmatureBonePaths) -> (r: Vec<(String, Vec<String>)>)
    ensures
        r@.len() == bone_count(bones.armature_bone_paths@, bones.armature_bone_paths@.len() as int),
        forall|a: int, j: int|
            0 <= a < bones.armature_bone_paths@.len() && 0 <= j < bones.armature_bone_paths@[a].bone_paths@.len() ==> {
                let e = #[trigger] r@[bone_count(bones.armature_bone_paths@, a) + j];
                let abp = bones.armature_bone_paths@[a];
                &&& e.0@ == abp.bone_paths@[j].0@
                &&& path_names(e.1@) == full_bone_path(abp, j)
            },
{
    let abps = &bones.armature_bone_paths;
    let mut r: Vec<(String, Vec<String>)> = Vec::new();
    let mut a: usize = 0;
    while a < abps.len()
        invariant
            a <= abps@.len(),
            abps == &bones.armature_bone_paths,
            r@.len() == bone_count(abps@, a as int),
            forall|a2: int, j: int|
                0 <= a2 < a && 0 <= j < abps@[a2].bone_paths@.len() ==> {
                    let e = #[trigger] r@[bone_count(abps@, a2) + j];
                    &&& e.0@ == abps@[a2].bone_paths@[j].0@
                    &&& path_names(e.1@) == full_bone_path(abps@[a2], j)
                },
        decreases abps.len() - a,
    {
        let abp = &abps[a];
        let ghost base = r@.len();
        let mut j: usize = 0;
        while j < abp.bone_paths.len()
            invariant
                a < abps@.len(),
                abp == &abps@[a as int],
                j <= abp.bone_paths@.len(),
                base == bone_count(abps@, a as int),
                r@.len() == base + j,
                forall|a2: int, j2: int|
                    0 <= a2 < a && 0 <= j2 < abps@[a2].bone_paths@.len() ==> {
                        let e = #[trigger] r@[bone_count(abps@, a2) + j2];
                        &&& e.0@ == abps@[a2].bone_paths@[j2].0@
                        &&& path_names(e.1@) == full_bone_path(abps@[a2], j2)
                    },
                forall|j2: int|
                    0 <= j2 < j ==> {
                        let e = #[trigger] r@[base + j2];
                        &&& e.0@ == abp.bone_paths@[j2].0@
                        &&& path_names(e.1@) == full_bone_path(*abp, j2)
                    },
            decreases abp.bone_paths.len() - j,
        {
            let path = full_path(&abp.armature, &abp.bone_paths[j].1);
            let ghost before = r@;
            r.push((abp.bone_paths[j].0.clone(), path));
            proof {
                assert forall|a2: int, j2: int|
                    0 <= a2 < a && 0 <= j2 < abps@[a2].bone_paths@.len() implies {
                        let e = #[trigger] r@[bone_count(abps@, a2) + j2];
                        &&& e.0@ == abps@[a2].bone_paths@[j2].0@
                        &&& path_names(e.1@) == full_bone_path(abps@[a2], j2)
                    } by {
                    lemma_bone_count_mono(abps@, a2 + 1, a as int);
                    assert(bone_count(abps@, a2 + 1) == bone_count(abps@, a2) + abps@[a2].bone_paths@.len());
                    lemma_bone_count_mono(abps@, 0, a2);
                    assert(r@[bone_count(abps@, a2) + j2] == before[bone_count(abps@, a2) + j2]);
                }
            }
            j = j + 1;
        }
        proof {
            assert forall|a2: int, j2: int|
                0 <= a2 < a + 1 && 0 <= j2 < abps@[a2].bone_paths@.len() implies {
                    let e = #[trigger] r@[bone_count(abps@, a2) + j2];
                    &&& e.0@ == abps@[a2].bone_paths@[j2].0@
                    &&& path_names(e.1@) == full_bone_path(abps@[a2], j2)
                } by {
                if a2 == a {
                    assert(r@[base + j2] == r@[bone_count(abps@, a2) + j2]);
                }
            }
        }
        a = a + 1;
    }
    r
}

/// How many bones the first `k` armatures have.
pub open spec fn bone_count(abps: Seq<ArmatureBonePath>, k: int) -> int
    decreases k,
{
    if k <= 0 {
        0
    } else {
        bone_count(abps, k - 1) + abps[k - 1].bone_paths@.len()
    }
}

/// Counting more armatures counts no fewer bones.
pub proof fn lemma_bone_count_mono(abps: Seq<ArmatureBonePath>, a: int, b: int)
    requires
        0 <= a <= b,
    ensures
        bone_count(abps, a) <= bone_count(abps, b),
    decreases b - a,
{
    if a < b {
        lemma_bone_count_mono(abps, a, b - 1);
    }
}

/// The animation target of every bone of a scene, by bone name.
pub fn bone_target_ids(bones: Option<&SceneArmatureBonePaths>) -> (r: HashMap<String, AnimationTargetId>)
    ensures
        target_map(r) == scene_bone_targets(
            match bones {
                Some(b) => Some(*b),
                None => None,
            },
        ),
{
    let mut m = target_map_new();
    proof {
        assert(target_map(m) =~= Map::<Seq<char>, u128>::empty());
    }
    match bones {
        None => {},
        Some(b) => {
            let abps = &b.armature_bone_paths;
            let mut a: usize = 0;
            while a < abps.len()
                invariant
                    a <= abps@.len(),
                    target_map(m) == bone_targets(abps@, a as int),
                decreases abps.len() - a,
            {
                let abp = &abps[a];
                let ghost start = target_map(m);
                let mut j: usize = 0;
                while j < abp.bone_paths.len()
                    invariant
                        a < abps@.len(),
                        abp == &abps@[a as int],
                        start == bone_targets(abps@, a as int),
                        j <= abp.bone_paths@.len(),
                        target_map(m) == bones_into(start, *abp, j as int),
                    decreases abp.bone_paths.len() - j,
                {
                    let path = full_path(&abp.armature, &abp.bone_paths[j].1);
                    let id = target_id_from_path(&path);
                    target_map_insert(&mut m, abp.bone_paths[j].0.clone(), id);
                    j = j + 1;
                }
                a = a + 1;
            }
        },
    }
    m
}

/// The (target, group) pairs to add to the graph's mask groups: for each
/// group in order, each of its bone names that is a known bone, in order.
pub fn mask_group_targets(groups: &MaskGroups, bones: Option<&SceneArmatureBonePaths>) -> (r: Vec<
    (AnimationTargetId, u32),
>)
    requires
        groups.0@.len() <= 64,
    ensures
        assignment_values(r@) == mask_assignments(
            groups.0@,
            scene_bone_targets(
                match bones {
                    Some(b) => Some(*b),
                    None => None,
                },
            ),
            groups.0@.len() as int,
        ),
{
    let targets = bone_target_ids(bones);
    let ghost m = target_map(targets);
    let mut r: Vec<(AnimationTargetId, u32)> = Vec::new();
    let mut g: usize = 0;
    proof {
        assert(assignment_values(r@) =~= mask_assignments(groups.0@, m, 0));
    }
    while g < groups.0.len()
        invariant
            g <= groups.0@.len(),
            groups.0@.len() <= 64,
            m == target_map(targets),
            assignment_values(r@) == mask_assignments(groups.0@, m, g as int),
        decreases groups.0.len() - g,
    {
        let group = &groups.0[g];
        let ghost start = assignment_values(r@);
        let mut t: usize = 0;
        while t < group.targets.len()
            invariant
                g < groups.0@.len(),
                groups.0@.len() <= 64,
                group == &groups.0@[g as int],
                m == target_map(targets),
                start == mask_assignments(groups.0@, m, g as int),
                t <= group.targets@.len(),
                assignment_values(r@) == start + group_pairs(group.targets@, m, g as u32, t as int),
            decreases group.targets.len() - t,
        {
            match target_map_get(&targets, &group.targets[t]) {
                Some(id) => {
                    let ghost before = r@;
                    r.push((id, g as u32));
                    proof {
                        assert(assignment_values(r@) =~= assignment_values(before).push((target_id_value(id), g as u32)));
                    }
                },
                None => {},
            }
            proof {
                assert(start + group_pairs(group.targets@, m, g as u32, t + 1) =~= if m.contains_key(group.targets@[t as int]@) {
                    (start + group_pairs(group.targets@, m, g as u32, t as int)).push((m[group.targets@[t as int]@], g as u32))
                } else {
                    start + group_pairs(group.targets@, m, g as u32, t as int)
                });
            }
            t = t + 1;
        }
        g = g + 1;
    }
    r
}

} // verus!
