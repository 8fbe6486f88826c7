use ashiojin_extensions::animation::AnimationGraphHelper;
use ashiojin_extensions::api::{
    greet, ErrorIssueGraphCommands, ErrorLoadGltf, ErrorSetGraph, LoadGltf, SendError, ToBevyPayload,
};
use ashiojin_extensions::meshes::{Belt, FlatRing3d, SphericalZone};
use ashiojin_extensions::previewer::{animation_names, scene_names};
use ashiojin_extensions::scene::{GltfSceneLabel, SandboxExtension};
use ashiojin_extensions::trail::{
    fx_timings, FxConfig, SandboxActionFxConfig, SandboxMeshFxConfigExtension, TrailAction, TrailEmitter,
    TrailEmitterTiming, TrailHistory, TrailInterpolationMode,
};

use bevy::animation::graph::AnimationNodeIndex;
use bevy::ecs::entity::Entity;
use bevy::math::{Dir3, Vec3};
use bevy::platform::collections::HashMap;

/// The graph node index numbered `i`.
fn node_index_new(i: u32) -> AnimationNodeIndex {
    AnimationNodeIndex::new(i as usize)
}

/// The number of a graph node index.
fn node_index_number(n: AnimationNodeIndex) -> u32 {
    n.index() as u32
}

#[test]
fn test_belt_mesh() {
    let belt = Belt::new(Vec3::X, Dir3::Z, Vec3::Y, Dir3::Z, 0.1).with_resolution(10);

    let mesh = belt.mesh();

    // Resolution 10 means 11 steps.
    // Each step has 2 vertices.
    // Total vertices per side: 11 * 2 = 22.
    // Double-sided: 22 * 2 = 44.
    assert_eq!(mesh.vertex_count(), 44);

    // 10 segments.
    // Each segment has 2 triangles per side.
    // Each triangle has 3 indices.
    // Indices per side: 10 * 2 * 3 = 60.
    // Double-sided: 60 * 2 = 120.
    assert_eq!(mesh.indices().len(), 120);
}

#[test]
fn belt_indices_values() {
    let belt = Belt::new(0u8, 0u8, 0u8, 0u8, 0u8).with_resolution(2);
    assert_eq!(belt.resolution, 2);
    let idx = belt.mesh().indices();
    assert_eq!(&idx[0..6], &[0, 2, 1, 1, 2, 3]);
    assert_eq!(&idx[6..12], &[2, 4, 3, 3, 4, 5]);
    // inner side: vertices 6.., reversed winding
    assert_eq!(&idx[12..18], &[6, 7, 8, 7, 9, 8]);
    assert!(idx.iter().all(|&i| i < 12));
    assert_eq!(Belt::new(0u8, 0u8, 0u8, 0u8, 0u8).resolution, 32);
}

#[test]
fn flat_ring_strip() {
    let ring = FlatRing3d::with_up(0u8, 2.0f32, 1.0f32, 1u8).with_resolution(3);
    let b = ring.mesh();
    assert_eq!(b.vertex_count(), 8);
    assert_eq!(b.indices(), vec![0, 1, 2, 3, 4, 5, 6, 7]);
    assert_eq!(FlatRing3d::with_up(0u8, 2.0f32, 1.0f32, 1u8).resolution, 32);
}

#[test]
fn spherical_zone_indices() {
    let zone = SphericalZone::new(1.0f32, 0.0, 1.0).with_circle_resolution(2).with_angle_resolution(1);
    let b = zone.mesh();
    assert_eq!((b.circle_resolution, b.angle_resolution, b.is_double_sided), (2, 1, false));
    assert_eq!(b.vertex_count(), 6);
    assert_eq!(b.indices(), vec![0, 3, 2, 0, 1, 3, 2, 5, 4, 2, 3, 5]);

    let double = zone.with_double_sided(true).mesh();
    assert_eq!(double.vertex_count(), 12);
    let idx = double.indices();
    assert_eq!(idx.len(), 24);
    assert_eq!(&idx[0..6], &[6, 8, 9, 6, 9, 7]);
    assert_eq!(&idx[12..18], &[0, 3, 2, 0, 1, 3]);

    let default = SphericalZone::new(1.0f32, 0.0, 1.0).mesh();
    assert_eq!((default.circle_resolution, default.angle_resolution, default.is_double_sided), (32, 16, false));
    assert_eq!(default.indices().len(), 32 * 16 * 6);
}

fn helper_with_clips(clips: &[(&str, u32)]) -> AnimationGraphHelper {
    let mut m = HashMap::new();
    for (name, i) in clips {
        m.insert(name.to_string(), node_index_new(*i));
    }
    AnimationGraphHelper::new(HashMap::new(), m)
}

#[test]
fn emitter_builders_and_timings_of() {
    let a = node_index_new(1);
    let b = node_index_new(2);
    let e = TrailEmitter::new(0.2f32)
        .add_timing(TrailEmitterTiming::new(a, 0.0, 1.0))
        .extend_timings(vec![TrailEmitterTiming::new(b, 1.0, 2.0), TrailEmitterTiming::new(a, 3.0, 4.0)])
        .with_subdivisions(4);
    assert_eq!(e.lifetime(), 0.2);
    assert_eq!(e.subdivisions(), 4);
    assert_eq!(e.mode(), TrailInterpolationMode::LinearLastSegment);
    assert_eq!(e.timings().len(), 3);
    let of_a = e.timings_of(a);
    assert_eq!(of_a.len(), 2);
    assert_eq!((of_a[0].start_time, of_a[1].start_time), (0.0, 3.0));
    assert_eq!(node_index_number(of_a[1].node_idx()), 1);
    assert!(e.timings_of(node_index_new(9)).is_empty());
    assert_eq!(TrailEmitter::new(1.0f32).subdivisions(), 8);
}

#[test]
fn fx_timings_follow_clips() {
    let helper = helper_with_clips(&[("Slash", 4), ("Walk", 5)]);
    let config = SandboxActionFxConfig {
        maps: vec![
            ("Slash".to_string(), vec![
                FxConfig { target_name: "Blade".to_string(), start_sec: 0.1f32, end_sec: 0.3 },
                FxConfig { target_name: "Other".to_string(), start_sec: 0.5, end_sec: 0.6 },
            ]),
            ("Unknown".to_string(), vec![FxConfig { target_name: "Blade".to_string(), start_sec: 9.0, end_sec: 9.5 }]),
            ("Walk".to_string(), vec![FxConfig { target_name: "Blade".to_string(), start_sec: 1.0, end_sec: 2.0 }]),
        ],
    };
    let fx = SandboxMeshFxConfigExtension { is_fx_mesh: true, fx_type: "trail".to_string() };
    let t = fx_timings(&fx, &config, &helper, &"Blade".to_string()).unwrap();
    assert_eq!(t.len(), 2);
    assert_eq!((node_index_number(t[0].node_idx), t[0].start_time, t[0].end_time), (4, 0.1, 0.3));
    assert_eq!((node_index_number(t[1].node_idx), t[1].start_time, t[1].end_time), (5, 1.0, 2.0));
    let not_fx = SandboxMeshFxConfigExtension { is_fx_mesh: false, fx_type: String::new() };
    assert!(fx_timings(&not_fx, &config, &helper, &"Blade".to_string()).is_none());
}

#[test]
fn trail_history_burst_cuts_trail() {
    let emitter = TrailEmitter::new(0.2f32).with_mode(TrailInterpolationMode::LinearLastSegment);
    let mut h: TrailHistory<u32> = TrailHistory::start(None, &emitter, Some(10));
    assert_eq!(h.points.len(), 1);
    assert!(h.was_active);
    assert_eq!(h.subdivisions, 8);

    // still emitting, moved: push without a cut
    assert_eq!(h.begin_frame(true, true), Some(false));
    h.push_point(11);
    h.end_frame(true, &vec![false, false]);
    // idle frame
    assert_eq!(h.begin_frame(false, true), None);
    h.end_frame(false, &vec![false, false]);
    assert!(!h.was_active);
    // a new burst after idling: the next point is cut from the last one
    assert_eq!(h.begin_frame(true, false), None);
    assert!(h.pending_break);
    h.end_frame(true, &vec![false, false]);
    assert_eq!(h.begin_frame(true, true), Some(true));
    h.push_point(12);
    assert!(!h.pending_break);
    assert_eq!(h.points.iter().copied().collect::<Vec<_>>(), vec![10, 11, 12]);
}

#[test]
fn trail_history_pruning_keeps_newest() {
    let mut h: TrailHistory<u32> = TrailHistory::new(TrailInterpolationMode::LinearLastSegment, 8);
    for p in [1, 2, 3, 4] {
        h.push_point(p);
    }
    h.end_frame(true, &vec![true, true, false, true]);
    assert_eq!(h.points.iter().copied().collect::<Vec<_>>(), vec![3, 4]);
    h.end_frame(true, &vec![true, true]);
    assert_eq!(h.points.iter().copied().collect::<Vec<_>>(), vec![4]);
    assert!(!h.needs_mesh());
}

#[test]
fn trail_entity_actions() {
    let mut h: TrailHistory<u32> = TrailHistory::new(TrailInterpolationMode::LinearLastSegment, 8);
    assert!(matches!(h.trail_action(false), TrailAction::Nothing));
    assert!(matches!(h.trail_action(true), TrailAction::Spawn));
    let e = Entity::from_raw_u32(7).unwrap();
    h.trail_entity = Some(e);
    assert!(matches!(h.trail_action(true), TrailAction::Update(x) if x == e));
    assert!(matches!(h.trail_action(false), TrailAction::Despawn(x) if x == e));
    assert!(h.trail_entity.is_none());
}

#[test]
fn previewer_names() {
    let scenes = scene_names(&vec![Some("Main".to_string()), None]);
    assert_eq!(scenes, vec!["Main".to_string(), "Unnamed Scene".to_string()]);
    let mut names = vec![Some("idle".to_string())];
    names.extend(std::iter::repeat(None).take(12));
    let anims = animation_names(&names);
    assert_eq!(anims[0], "idle");
    assert_eq!(anims[1], "Animation 1");
    assert_eq!(anims[10], "Animation 10");
    assert_eq!(anims[12], "Animation 12");
}

#[test]
fn api_messages_and_errors() {
    let payload: ToBevyPayload<f32> = ToBevyPayload::from(LoadGltf { gltf: "a.glb".to_string() });
    assert!(matches!(payload, ToBevyPayload::LoadGltf { gltf } if gltf == "a.glb"));
    let e = SendError::new("closed".to_string());
    assert_eq!(e.display(), "closed");
    assert_eq!(ErrorLoadGltf::from(e.clone()).display(), "SendError: closed");
    assert_eq!(ErrorSetGraph::from(e.clone()).display(), "SendError: closed");
    assert_eq!(ErrorIssueGraphCommands::from(e).display(), "SendError: closed");
    assert_eq!(greet("Ada"), "Hello, Ada! You've been greeted from Rust!");
}

#[test]
fn scene_labels_and_extensions() {
    assert!(matches!(GltfSceneLabel::from_name("S".to_string()), GltfSceneLabel::Name(n) if n == "S"));
    assert!(matches!(GltfSceneLabel::from_idx(3), GltfSceneLabel::Idx(3)));
    let ext = SandboxExtension { shader_type: "ASHIOJIN_SANDBOX".to_string(), param1: [0.0f32; 4] };
    assert!(ext.is_sandbox_shader());
    let other = SandboxExtension { shader_type: "PBR".to_string(), param1: [0.0f32; 4] };
    assert!(!other.is_sandbox_shader());
}

#[test]
fn timings_split_by_node_add_up() {
    let (a, b) = (node_index_new(1), node_index_new(2));
    let e = TrailEmitter::new(0.5f32)
        .add_timing(TrailEmitterTiming::new(a, 0.0, 0.1))
        .add_timing(TrailEmitterTiming::new(b, 0.2, 0.3))
        .add_timing(TrailEmitterTiming::new(a, 0.4, 0.5));
    assert_eq!(e.timings_of(a).len() + e.timings_of(b).len(), e.timings().len());
    assert_eq!(e.timings_of(a).len(), 2);
}

#[test]
fn trail_cut_marks_only_first_point_of_burst() {
    let emitter = TrailEmitter::new(1.0f32);
    let mut h: TrailHistory<u32> = TrailHistory::start(None, &emitter, Some(1));
    // idle, then a burst: the first point pushed is cut, the next is not
    assert_eq!(h.begin_frame(false, true), None);
    h.end_frame(false, &vec![false]);
    assert_eq!(h.begin_frame(true, true), Some(true));
    h.push_point(2);
    h.end_frame(true, &vec![false, false]);
    assert_eq!(h.begin_frame(true, true), Some(false));
    h.push_point(3);
    h.end_frame(true, &vec![false, false, false]);
    assert_eq!(h.points.iter().copied().collect::<Vec<_>>(), vec![1, 2, 3]);
}
