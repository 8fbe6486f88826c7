use ashiojin_extensions::animation::{
    bone_full_paths, mask_group_targets, ArmatureBonePath, NodeAction, SceneArmatureBonePaths,
};
use ashiojin_extensions::graph_desc::{
    AdditiveBlendNodeDesc, AnimeGraphCommand, AnimeGraphDesc, BlendNodeDesc, ClipNodeDesc, EdgeDesc,
    MaskGroup, MaskGroupIdx, MaskGroups, NodeDesc,
};
use ashiojin_extensions::graph_plan::{plan_graph, GraphPlan, PlanError};
use ashiojin_extensions::mask::{checked_mask_bits, mask_bits};

use bevy::animation::graph::AnimationNodeIndex;
use bevy::animation::AnimationTargetId;
use bevy::ecs::name::Name;

/// The graph node index numbered `i`.
fn node_index_new(i: u32) -> AnimationNodeIndex {
    AnimationNodeIndex::new(i as usize)
}

/// The number of a graph node index.
fn node_index_number(n: AnimationNodeIndex) -> u32 {
    n.index() as u32
}

fn s(x: &str) -> String {
    x.to_string()
}

fn clip(name: &str, mask: Vec<u32>) -> NodeDesc<f32> {
    NodeDesc::Clip(ClipNodeDesc {
        clip: s(name),
        weight: 1.0,
        mask: mask.into_iter().map(MaskGroupIdx::new).collect(),
    })
}

fn blend(mask: Vec<u32>) -> NodeDesc<f32> {
    NodeDesc::Blend(BlendNodeDesc { weight: 0.5, mask: mask.into_iter().map(MaskGroupIdx::new).collect() })
}

fn edge(src: &str, dest: &str) -> EdgeDesc {
    EdgeDesc { src: s(src), dest: s(dest) }
}

fn desc(nodes: Vec<(&str, NodeDesc<f32>)>, edges: Vec<EdgeDesc>, groups: usize) -> AnimeGraphDesc<f32> {
    AnimeGraphDesc {
        nodes: nodes.into_iter().map(|(n, d)| (s(n), d)).collect(),
        edges,
        mask_groups: MaskGroups((0..groups).map(|_| MaskGroup::default()).collect()),
    }
}

fn step_names(d: &AnimeGraphDesc<f32>, plan: &GraphPlan) -> Vec<String> {
    plan.steps.iter().map(|st| d.nodes[st.node].0.clone()).collect()
}

#[test]
fn mask_group_idx_bits() {
    let m = MaskGroupIdx::new(5);
    assert_eq!(m.idx(), 5);
    assert_eq!(m.bit(), 32);
    assert_eq!(MaskGroupIdx::new(63).bit(), 1u64 << 63);
}

#[test]
fn mask_bits_union() {
    let mask = vec![MaskGroupIdx::new(0), MaskGroupIdx::new(3), MaskGroupIdx::new(3)];
    assert_eq!(mask_bits(&mask), 0b1001);
    assert_eq!(mask_bits(&vec![]), 0);
}

#[test]
fn checked_mask_bits_defined_and_undefined() {
    let mask = vec![MaskGroupIdx::new(1), MaskGroupIdx::new(2)];
    assert_eq!(checked_mask_bits(&mask, 3), Ok(0b110));
    let err = checked_mask_bits(&mask, 2).unwrap_err();
    assert_eq!(err.requested, 0b110);
    assert_eq!(err.group_count, 2);
}

#[test]
fn plan_chain_in_order() {
    let d = desc(
        vec![("root", NodeDesc::Root), ("walk", clip("Walk", vec![])), ("mix", blend(vec![]))],
        vec![edge("walk", "mix"), edge("mix", "root")],
        0,
    );
    let plan = plan_graph(&d, &vec![s("Walk")]).unwrap();
    assert_eq!(plan.root, 0);
    // "mix" hangs from the root (pass 1); "walk" comes before its parent in
    // the list, so it is attached in the next pass.
    assert_eq!(step_names(&d, &plan), vec![s("mix"), s("walk")]);
    assert_eq!(plan.steps[0].parent, None);
    assert_eq!(plan.steps[1].parent, Some(0));
    assert_eq!(plan.steps[0].mask, None);
}

#[test]
fn plan_same_pass_when_parent_listed_first() {
    let d = desc(
        vec![
            ("mix", blend(vec![])),
            ("walk", clip("Walk", vec![])),
            ("root", NodeDesc::Root),
            ("run", clip("Run", vec![])),
        ],
        vec![edge("mix", "root"), edge("walk", "mix"), edge("run", "root")],
        0,
    );
    let plan = plan_graph(&d, &vec![s("Walk"), s("Run")]).unwrap();
    assert_eq!(plan.root, 2);
    assert_eq!(step_names(&d, &plan), vec![s("mix"), s("walk"), s("run")]);
    assert_eq!(plan.steps[1].parent, Some(0));
    assert_eq!(plan.steps[2].parent, None);
}

#[test]
fn plan_missing_clip_leaves_out_subtree() {
    let d = desc(
        vec![
            ("root", NodeDesc::Root),
            ("missing", clip("Nope", vec![])),
            ("child", blend(vec![])),
            ("ok", clip("Walk", vec![])),
        ],
        vec![edge("missing", "root"), edge("child", "missing"), edge("ok", "root")],
        0,
    );
    let plan = plan_graph(&d, &vec![s("Walk")]).unwrap();
    assert_eq!(step_names(&d, &plan), vec![s("ok")]);
}

#[test]
fn plan_cycle_and_orphans_left_out() {
    let d = desc(
        vec![
            ("root", NodeDesc::Root),
            ("a", blend(vec![])),
            ("b", blend(vec![])),
            ("lonely", blend(vec![])),
            ("self", blend(vec![])),
        ],
        vec![edge("a", "b"), edge("b", "a"), edge("self", "self")],
        0,
    );
    let plan = plan_graph(&d, &vec![]).unwrap();
    assert!(plan.steps.is_empty());
}

#[test]
fn plan_first_edge_names_parent() {
    let d = desc(
        vec![("root", NodeDesc::Root), ("a", blend(vec![])), ("b", blend(vec![]))],
        vec![edge("b", "a"), edge("b", "root"), edge("a", "root")],
        0,
    );
    let plan = plan_graph(&d, &vec![]).unwrap();
    assert_eq!(step_names(&d, &plan), vec![s("a"), s("b")]);
    assert_eq!(plan.steps[1].parent, Some(0));
}

#[test]
fn plan_last_root_wins() {
    let d = desc(
        vec![("r1", NodeDesc::Root), ("a", blend(vec![])), ("r2", NodeDesc::Root), ("b", blend(vec![]))],
        vec![edge("a", "r1"), edge("b", "r2")],
        0,
    );
    let plan = plan_graph(&d, &vec![]).unwrap();
    assert_eq!(plan.root, 2);
    assert_eq!(step_names(&d, &plan), vec![s("b")]);
}

#[test]
fn plan_masks() {
    let d = desc(
        vec![
            ("root", NodeDesc::Root),
            ("upper", blend(vec![0, 1])),
            ("bad", NodeDesc::AdditiveBlend(AdditiveBlendNodeDesc {
                weight: 1.0,
                mask: vec![MaskGroupIdx::new(2)],
            })),
        ],
        vec![edge("upper", "root"), edge("bad", "root")],
        2,
    );
    let plan = plan_graph(&d, &vec![]).unwrap();
    assert_eq!(step_names(&d, &plan), vec![s("upper")]);
    assert_eq!(plan.steps[0].mask, Some(0b11));
}

#[test]
fn plan_errors() {
    let no_root = desc(vec![("a", blend(vec![]))], vec![edge("a", "root")], 0);
    assert_eq!(plan_graph(&no_root, &vec![]).unwrap_err(), PlanError::NoRoot);

    let many = desc(vec![("root", NodeDesc::Root)], vec![], 65);
    assert_eq!(plan_graph(&many, &vec![]).unwrap_err(), PlanError::TooManyMaskGroups);

    let wide = desc(
        vec![("root", NodeDesc::Root), ("a", blend(vec![])), ("w", blend(vec![64]))],
        vec![edge("a", "root"), edge("w", "a")],
        3,
    );
    assert_eq!(plan_graph(&wide, &vec![]).unwrap_err(), PlanError::MaskGroupOutOfRange { node: 2 });

    // an unreachable node may list any group
    let unreachable = desc(
        vec![("root", NodeDesc::Root), ("w", blend(vec![99]))],
        vec![edge("w", "nowhere")],
        0,
    );
    assert!(plan_graph(&unreachable, &vec![]).is_ok());
}

#[test]
fn helper_maps_and_commands() {
    let d = desc(
        vec![("root", NodeDesc::Root), ("walk", clip("Walk", vec![])), ("mix", blend(vec![]))],
        vec![edge("walk", "mix"), edge("mix", "root")],
        0,
    );
    let plan = plan_graph(&d, &vec![s("Walk")]).unwrap();
    let root = node_index_new(0);
    let indices = vec![node_index_new(1), node_index_new(2)];
    let helper = plan.helper(&d, root, &indices);
    assert_eq!(node_index_number(helper.node_index(&s("root")).unwrap()), 0);
    assert_eq!(node_index_number(helper.node_index(&s("mix")).unwrap()), 1);
    assert_eq!(node_index_number(helper.node_index(&s("walk")).unwrap()), 2);
    assert!(helper.node_index(&s("Walk")).is_none());
    assert_eq!(node_index_number(helper.clip_node_index(&s("Walk")).unwrap()), 2);
    assert_eq!(helper.node_id_to_idx().len(), 3);
    assert_eq!(helper.clip_name_to_node_idx().len(), 1);

    let (idx, action) = helper.resolve_command(&AnimeGraphCommand::SetWeight(s("mix"), 0.25f32)).unwrap();
    assert_eq!(node_index_number(idx), 1);
    assert_eq!(action, NodeAction::SetWeight(0.25));
    let (idx, action) = helper.resolve_command(&AnimeGraphCommand::<f32>::PlayRepeat(s("walk"))).unwrap();
    assert_eq!(node_index_number(idx), 2);
    assert_eq!(action, NodeAction::PlayRepeat);
    assert!(helper.resolve_command(&AnimeGraphCommand::<f32>::StopPlay(s("run"))).is_none());
}

fn bones() -> SceneArmatureBonePaths {
    SceneArmatureBonePaths {
        armature_bone_paths: vec![
            ArmatureBonePath {
                armature: s("Armature"),
                bone_paths: vec![(s("hips"), vec![s("hips")]), (s("spine"), vec![s("hips"), s("spine")])],
            },
            ArmatureBonePath { armature: s("Other"), bone_paths: vec![(s("spine"), vec![s("spine")])] },
        ],
    }
}

fn target(path: &[&str]) -> AnimationTargetId {
    let names: Vec<Name> = path.iter().map(|p| Name::new(p.to_string())).collect();
    AnimationTargetId::from_names(names.iter())
}

#[test]
fn bone_paths_include_armature() {
    let paths = bone_full_paths(&bones());
    assert_eq!(paths.len(), 3);
    assert_eq!(paths[1].0, "spine");
    assert_eq!(paths[1].1, vec![s("Armature"), s("hips"), s("spine")]);
    assert_eq!(paths[2].1, vec![s("Other"), s("spine")]);
}

#[test]
fn mask_targets_by_group() {
    let groups = MaskGroups(vec![
        MaskGroup { targets: vec![s("spine"), s("tail")] },
        MaskGroup { targets: vec![s("hips")] },
    ]);
    let b = bones();
    let targets = mask_group_targets(&groups, Some(&b));
    // the later armature's "spine" takes the place of the earlier one
    assert_eq!(targets, vec![(target(&["Other", "spine"]), 0), (target(&["Armature", "hips"]), 1)]);
    assert_ne!(targets[1].0, target(&["hips"]));
    assert!(mask_group_targets(&groups, None).is_empty());
}
