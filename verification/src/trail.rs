//! Trails: which animation times make a mesh emit a trail, and the history
//! of points that a trail keeps from frame to frame.
//!
//! Times and points are carried as opaque type parameters (`T` for a time
//! in seconds, `P` for a trail point): comparing times and positions is left
//! to the caller, who hands in the outcome of each comparison.
use vstd::prelude::*;

use std::collections::VecDeque;

use bevy::animation::graph::AnimationNodeIndex;
use bevy::ecs::entity::Entity;

use crate::animation::AnimationGraphHelper;
use crate::bevy_types::{node_index_number, node_index_value};

verus! {

/// A Bevy entity.
#[verifier::external_type_specification]
#[verifier::external_body]
pub struct ExEntity(Entity);

/// How the points of a trail are joined into a ribbon.
#[derive(Debug, Clone, Copy, PartialEq, Eq)]
pub enum TrailInterpolationMode {
    /// Curved between points, straight on the newest segment.
    LinearLastSegment,
}

/// The trail settings of the whole application.
#[derive(Debug, Clone, Copy)]
pub struct TrailConfig {
    pub mode: TrailInterpolationMode,
}

impl Default for TrailConfig {
    /// Trails curved between points and straight on the newest segment.
    fn default() -> (r: Self)
        ensures
            r.mode == TrailInterpolationMode::LinearLastSegment,
    {
        Self { mode: TrailInterpolationMode::LinearLastSegment }
    }
}

/// The time span of an animation node during which a mesh emits a trail.
#[derive(Debug, Copy)]
pub struct TrailEmitterTiming<T> {
    pub node_idx: AnimationNodeIndex,
    pub start_time: T,
    pub end_time: T,
}

impl<T: Copy> Clone for TrailEmitterTiming<T> {
    fn clone(&self) -> (r: Self)
        ensures
            r == *self,
    {
        *self
    }
}

impl<T> TrailEmitterTiming<T> {
    /// A timing for the given node and span.
    pub fn new(node_idx: AnimationNodeIndex, start_time: T, end_time: T) -> (r: Self)
        ensures
            r.node_idx == node_idx,
            r.start_time == start_time,
            r.end_time == end_time,
    {
        Self { node_idx, start_time, end_time }
    }

    /// The animation node of this timing.
    pub fn node_idx(&self) -> (r: AnimationNodeIndex)
        ensures
            r == self.node_idx,
    {
        self.node_idx
    }
}

/// A mesh that emits a trail while one of its timings is on.
#[derive(Debug)]
pub struct TrailEmitter<T> {
    lifetime: T,
    timing: Vec<TrailEmitterTiming<T>>,
    mode: TrailInterpolationMode,
    subdivisions: u32,
}

/// The timings among the first `k` of `ts` that belong to the node numbered `node`.
pub open spec fn timings_of_node<T>(ts: Seq<TrailEmitterTiming<T>>, node: u32, k: int) -> Seq<TrailEmitterTiming<T>>
    decreases k,
{
    if k <= 0 {
        Seq::empty()
    } else {
        let s = timings_of_node(ts, node, k - 1);
        if node_index_value(ts[k - 1].node_idx) == node {
            s.push(ts[k - 1])
        } else {
            s
        }
    }
}

/// The values behind a list of references.
pub open spec fn derefs<T>(v: Seq<&T>) -> Seq<T> {
    v.map_values(|x: &T| *x)
}

impl<T> TrailEmitter<T> {
    /// How long a trail point lives, in seconds.
    pub closed spec fn lifetime_spec(&self) -> T {
        self.lifetime
    }

    /// The timings, in the order they were added.
    pub closed spec fn timings_spec(&self) -> Seq<TrailEmitterTiming<T>> {
        self.timing@
    }

    /// The interpolation mode of the trail.
    pub closed spec fn mode_spec(&self) -> TrailInterpolationMode {
        self.mode
    }

    /// How many pieces each trail segment is cut into.
    pub closed spec fn subdivisions_spec(&self) -> u32 {
        self.subdivisions
    }

    /// An emitter with the given point lifetime, no timings, the
    /// `LinearLastSegment` mode and 8 subdivisions.
    pub fn new(lifetime: T) -> (r: Self)
        ensures
            r.lifetime_spec() == lifetime,
            r.timings_spec() == Seq::<TrailEmitterTiming<T>>::empty(),
            r.mode_spec() == TrailInterpolationMode::LinearLastSegment,
            r.subdivisions_spec() == 8,
    {
        Self { lifetime, timing: Vec::new(), mode: TrailInterpolationMode::LinearLastSegment, subdivisions: 8 }
    }

    /// This emitter with one more timing, at the end.
    pub fn add_timing(self, timing: TrailEmitterTiming<T>) -> (r: Self)
        ensures
            r.timings_spec() == self.timings_spec().push(timing),
            r.lifetime_spec() == self.lifetime_spec(),
            r.mode_spec() == self.mode_spec(),
            r.subdivisions_spec() == self.subdivisions_spec(),
    {
        let mut s = self;
        s.timing.push(timing);
        s
    }

    /// This emitter with more timings, at the end, in their order.
    pub fn extend_timings(self, timings: Vec<TrailEmitterTiming<T>>) -> (r: Self)
        ensures
            r.timings_spec() == self.timings_spec() + timings@,
            r.lifetime_spec() == self.lifetime_spec(),
            r.mode_spec() == self.mode_spec(),
            r.subdivisions_spec() == self.subdivisions_spec(),
    {
        let mut s = self;
        let mut more = timings;
        s.timing.append(&mut more);
        s
    }

    /// This emitter with another interpolation mode.
    pub fn with_mode(self, mode: TrailInterpolationMode) -> (r: Self)
        ensures
            r.mode_spec() == mode,
            r.timings_spec() == self.timings_spec(),
            r.lifetime_spec() == self.lifetime_spec(),
            r.subdivisions_spec() == self.subdivisions_spec(),
    {
        let mut s = self;
        s.mode = mode;
        s
    }

    /// This emitter with another number of subdivisions.
    pub fn with_subdivisions(self, subdivisions: u32) -> (r: Self)
        ensures
            r.subdivisions_spec() == subdivisions,
            r.timings_spec() == self.timings_spec(),
            r.lifetime_spec() == self.lifetime_spec(),
            r.mode_spec() == self.mode_spec(),
    {
        let mut s = self;
        s.subdivisions = subdivisions;
        s
    }

    /// How long a trail point lives, in seconds.
    pub fn lifetime(&self) -> (r: T)
        where T: Copy,
        ensures
            r == self.lifetime_spec(),
    {
        self.lifetime
    }

    /// All timings.
    pub fn timings(&self) -> (r: &Vec<TrailEmitterTiming<T>>)
        ensures
            r@ == self.timings_spec(),
    {
        &self.timing
    }

    /// The timings of one animation node, in their order.
    pub fn timings_of(&self, node_idx: AnimationNodeIndex) -> (r: Vec<&TrailEmitterTiming<T>>)
        ensures
            derefs(r@) == timings_of_node(
                self.timings_spec(),
                node_index_value(node_idx),
                self.timings_spec().len() as int,
            ),
    {
        let node = node_index_number(node_idx);
        let mut r: Vec<&TrailEmitterTiming<T>> = Vec::new();
        let mut k: usize = 0;
        while k < self.timing.len()
            invariant
                k <= self.timing@.len(),
                node == node_index_value(node_idx),
                derefs(r@) == timings_of_node(self.timing@, node, k as int),
            decreases self.timing.len() - k,
        {
            let t = &self.timing[k];
            let ghost before = r@;
            if node_index_number(t.node_idx) == node {
                r.push(t);
                proof {
                    assert(derefs(r@) =~= derefs(before).push(*t));
                }
            }
            k = k + 1;
        }
        r
    }

    /// The interpolation mode of the trail.
    pub fn mode(&self) -> (r: TrailInterpolationMode)
        ensures
            r == self.mode_spec(),
    {
        self.mode
    }

    /// How many pieces each trail segment is cut into.
    pub fn subdivisions(&self) -> (r: u32)
        ensures
            r == self.subdivisions_spec(),
    {
        self.subdivisions
    }
}

// ---------------------------------------------------------------------------
// Timings from the scene's effect configuration
// ---------------------------------------------------------------------------

/// The span of an action during which a named mesh emits an effect.
#[derive(Debug, Clone, Default)]
pub struct FxConfig<T> {
    pub target_name: String,
    pub start_sec: T,
    pub end_sec: T,
}

/// The effect spans of each action (animation) of a scene, by action name;
/// an action name stands for one action.
#[derive(Debug, Clone, Default)]
pub struct SandboxActionFxConfig<T> {
    pub maps: Vec<(String, Vec<FxConfig<T>>)>,
}

/// Whether a mesh is an effect mesh, and of which kind.
#[derive(Debug, Clone, Default)]
pub struct SandboxMeshFxConfigExtension {
    pub is_fx_mesh: bool,
    pub fx_type: String,
}

/// A timing as plain values: node number, start, end.
pub open spec fn timing_value<T>(t: TrailEmitterTiming<T>) -> (u32, T, T) {
    (node_index_value(t.node_idx), t.start_time, t.end_time)
}

/// A list of timings as plain values.
pub open spec fn timing_values<T>(ts: Seq<TrailEmitterTiming<T>>) -> Seq<(u32, T, T)> {
    ts.map_values(|t: TrailEmitterTiming<T>| timing_value(t))
}

/// The timings of the first `k` spans of one action, for the mesh `target`,
/// on the node numbered `node`.
pub open spec fn action_timings<T>(fx: Seq<FxConfig<T>>, node: u32, target: Seq<char>, k: int) -> Seq<(u32, T, T)>
    decreases k,
{
    if k <= 0 {
        Seq::empty()
    } else {
        let s = action_timings(fx, node, target, k - 1);
        if fx[k - 1].target_name@ == target {
            s.push((node, fx[k - 1].start_sec, fx[k - 1].end_sec))
        } else {
            s
        }
    }
}

/// The timings of the first `k` actions for the mesh `target`: each action
/// that plays in the graph lends its node to the spans aimed at `target`.
pub open spec fn scene_timings<T>(
    maps: Seq<(String, Vec<FxConfig<T>>)>,
    clip_nodes: Map<Seq<char>, u32>,
    target: Seq<char>,
    k: int,
) -> Seq<(u32, T, T)>
    decreases k,
{
    if k <= 0 {
        Seq::empty()
    } else {
        let s = scene_timings(maps, clip_nodes, target, k - 1);
        let (action, fx) = maps[k - 1];
        if clip_nodes.contains_key(action@) {
            s + action_timings(fx@, clip_nodes[action@], target, fx@.len() as int)
        } else {
            s
        }
    }
}

/// The timings for an effect mesh called `target`: `None` when the mesh is
/// not an effect mesh.
pub fn fx_timings<T: Copy>(
    ext: &SandboxMeshFxConfigExtension,
    config: &SandboxActionFxConfig<T>,
    helper: &AnimationGraphHelper,
    target: &String,
) -> (r: Option<Vec<TrailEmitterTiming<T>>>)
    ensures
        r is None <==> !ext.is_fx_mesh,
        r matches Some(v) ==> timing_values(v@) == scene_timings(
            config.maps@,
            helper.clip_nodes(),
            target@,
            config.maps@.len() as int,
        ),
{
    if !ext.is_fx_mesh {
        return None;
    }
    let mut r: Vec<TrailEmitterTiming<T>> = Vec::new();
    let mut k: usize = 0;
    while k < config.maps.len()
        invariant
            k <= config.maps@.len(),
            timing_values(r@) == scene_timings(config.maps@, helper.clip_nodes(), target@, k as int),
        decreases config.maps.len() - k,
    {
        let (action, fx) = (&config.maps[k].0, &config.maps[k].1);
        match helper.clip_node_index(action) {
            None => {},
            Some(node) => {
                let ghost nv = node_index_value(node);
                let ghost start = timing_values(r@);
                let mut j: usize = 0;
                while j < fx.len()
                    invariant
                        j <= fx@.len(),
                        nv == node_index_value(node),
                        timing_values(r@) == start + action_timings(fx@, nv, target@, j as int),
                    decreases fx.len() - j,
                {
                    let ghost before = r@;
                    if fx[j].target_name == *target {
                        r.push(TrailEmitterTiming::new(node, fx[j].start_sec, fx[j].end_sec));
                        proof {
                            assert(timing_values(r@) =~= timing_values(before).push((nv, fx@[j as int].start_sec, fx@[j as int].end_sec)));
                        }
                    }
                    proof {
                        assert(start + action_timings(fx@, nv, target@, j + 1) =~= if fx@[j as int].target_name@ == target@ {
                            (start + action_timings(fx@, nv, target@, j as int)).push(
                                (nv, fx@[j as int].start_sec, fx@[j as int].end_sec),
                            )
                        } else {
                            start + action_timings(fx@, nv, target@, j as int)
                        });
                    }
                    j = j + 1;
                }
            },
        }
        k = k + 1;
    }
    Some(r)
}

// ---------------------------------------------------------------------------
// The history of a trail
// ---------------------------------------------------------------------------

/// The points of a trail, the entity that draws it, and what the last
/// frame left behind.
#[derive(Debug)]
pub struct TrailHistory<P> {
    pub points: VecDeque<P>,
    pub trail_entity: Option<Entity>,
    pub mode: TrailInterpolationMode,
    pub subdivisions: u32,
    /// Whether the emitter emitted on the previous frame. Used to detect
    /// the start of a new burst (idle -> active), which cuts the trail.
    pub was_active: bool,
    /// Set when a new burst begins, so that the next point pushed is
    /// marked as cut from the one before.
    pub pending_break: bool,
}

/// What to do with the entity that draws a trail.
#[derive(Debug)]
pub enum TrailAction {
    /// Put the new mesh into the entity's mesh.
    Update(Entity),
    /// Spawn an entity with the new mesh.
    Spawn,
    /// Despawn the entity: nothing is left to draw.
    Despawn(Entity),
    /// Nothing to draw and no entity.
    Nothing,
}

/// How many leading points are expired, leaving at least one point.
pub open spec fn prune_count(expired: Seq<bool>, n: int) -> int
    decreases n,
{
    if n <= 1 {
        0
    } else if prune_count(expired, n - 1) == n - 2 && expired[n - 2] {
        n - 1
    } else {
        prune_count(expired, n - 1)
    }
}

/// What the frames of a trail work on: its points, whether the emitter
/// emitted on the previous frame, and whether the next point is cut from
/// the one before.
pub struct TrailState<P> {
    pub points: Seq<P>,
    pub was_active: bool,
    pub pending_break: bool,
}

/// The start of a frame: a burst that begins after an idle frame, with
/// points left over, cuts the trail. With it, the cut flag of the point to
/// push, if one is pushed.
pub open spec fn begin_state<P>(s: TrailState<P>, emitting: bool, moved: bool) -> (TrailState<P>, Option<bool>) {
    let pending = s.pending_break || (emitting && !s.was_active && s.points.len() > 0);
    (
        TrailState { points: s.points, was_active: s.was_active, pending_break: pending },
        if emitting && (s.points.len() == 0 || moved) {
            Some(pending)
        } else {
            None
        },
    )
}

/// A point pushed: the pending cut is spent.
pub open spec fn push_state<P>(s: TrailState<P>, point: P) -> TrailState<P> {
    TrailState { points: s.points.push(point), was_active: s.was_active, pending_break: false }
}

/// The end of a frame: the expired oldest points dropped, keeping one.
pub open spec fn end_state<P>(s: TrailState<P>, emitting: bool, expired: Seq<bool>) -> TrailState<P> {
    TrailState {
        points: s.points.subrange(prune_count(expired, expired.len() as int), s.points.len() as int),
        was_active: emitting,
        pending_break: s.pending_break,
    }
}

/// What a frame brings: whether the emitter emits, whether the new point
/// moved from the newest one, the new point, and which points have
/// expired once it is pushed.
pub struct TrailFrame<P> {
    pub emitting: bool,
    pub moved: bool,
    pub point: P,
    pub expired: Seq<bool>,
}

/// The state after the point of a frame is pushed, if one is.
pub open spec fn pushed_state<P>(s: TrailState<P>, f: TrailFrame<P>) -> TrailState<P> {
    let (b, r) = begin_state(s, f.emitting, f.moved);
    match r {
        Some(_) => push_state(b, f.point),
        None => b,
    }
}

/// The state after a whole frame.
pub open spec fn frame_state<P>(s: TrailState<P>, f: TrailFrame<P>) -> TrailState<P> {
    end_state(pushed_state(s, f), f.emitting, f.expired)
}

/// The state after the first `k` frames.
pub open spec fn run_frames<P>(s0: TrailState<P>, frames: Seq<TrailFrame<P>>, k: int) -> TrailState<P>
    decreases k,
{
    if k <= 0 {
        s0
    } else {
        frame_state(run_frames(s0, frames, k - 1), frames[k - 1])
    }
}

/// The cut flag of the point pushed in frame `k`, if one is pushed.
pub open spec fn pushed_flag<P>(s0: TrailState<P>, frames: Seq<TrailFrame<P>>, k: int) -> Option<bool> {
    begin_state(run_frames(s0, frames, k), frames[k].emitting, frames[k].moved).1
}

/// Whether a burst begins in frame `k` after an idle frame, with points
/// left over.
pub open spec fn burst_starts<P>(s0: TrailState<P>, frames: Seq<TrailFrame<P>>, k: int) -> bool {
    let s = run_frames(s0, frames, k);
    frames[k].emitting && !s.was_active && s.points.len() > 0
}

impl<P> TrailHistory<P> {
    /// The state that the frames work on.
    pub open spec fn state(&self) -> TrailState<P> {
        TrailState { points: self.points@, was_active: self.was_active, pending_break: self.pending_break }
    }

    /// An empty history with the given mode and subdivisions.
    pub fn new(mode: TrailInterpolationMode, subdivisions: u32) -> (r: Self)
        ensures
            r.points@ == Seq::<P>::empty(),
            r.trail_entity is None,
            r.mode == mode,
            r.subdivisions == subdivisions,
            !r.was_active,
            !r.pending_break,
    {
        Self { points: VecDeque::new(), trail_entity: None, mode, subdivisions, was_active: false, pending_break: false }
    }

    /// The history of an emitter seen for the first time: the configured
    /// mode if there is one, else the emitter's, and the first point if the
    /// emitter emits already.
    pub fn start<T>(config_mode: Option<TrailInterpolationMode>, emitter: &TrailEmitter<T>, first: Option<P>) -> (r: Self)
        ensures
            r.mode == match config_mode {
                Some(m) => m,
                None => emitter.mode_spec(),
            },
            r.subdivisions == emitter.subdivisions_spec(),
            r.points@ == match first {
                Some(p) => seq![p],
                None => Seq::empty(),
            },
            r.was_active == first is Some,
            !r.pending_break,
            r.trail_entity is None,
    {
        let mode = match config_mode {
            Some(m) => m,
            None => emitter.mode(),
        };
        let mut h = Self::new(mode, emitter.subdivisions());
        match first {
            Some(p) => {
                h.points.push_back(p);
                h.was_active = true;
            },
            None => {},
        }
        h
    }

    /// Starts a frame. `emitting` says whether the emitter emits now, and
    /// `moved` whether the new point differs enough from the newest one.
    /// A burst that starts after an idle frame, with points left over, cuts
    /// the trail. Returns whether to push a point, and if so the cut flag
    /// that the point must carry.
    pub fn begin_frame(&mut self, emitting: bool, moved: bool) -> (r: Option<bool>)
        ensures
            final(self).pending_break == (old(self).pending_break || (emitting && !old(self).was_active
                && old(self).points@.len() > 0)),
            r is Some <==> emitting && (old(self).points@.len() == 0 || moved),
            r matches Some(b) ==> b == final(self).pending_break,
            (final(self).state(), r) == begin_state(old(self).state(), emitting, moved),
            final(self).points@ == old(self).points@,
            final(self).was_active == old(self).was_active,
            final(self).trail_entity == old(self).trail_entity,
            final(self).mode == old(self).mode,
            final(self).subdivisions == old(self).subdivisions,
    {
        if emitting && !self.was_active && self.points.len() > 0 {
            self.pending_break = true;
        }
        if emitting && (self.points.len() == 0 || moved) {
            Some(self.pending_break)
        } else {
            None
        }
    }

    /// Pushes the point of this frame; the pending cut is spent.
    pub fn push_point(&mut self, point: P)
        ensures
            final(self).points@ == old(self).points@.push(point),
            !final(self).pending_break,
            final(self).state() == push_state(old(self).state(), point),
            final(self).was_active == old(self).was_active,
            final(self).trail_entity == old(self).trail_entity,
            final(self).mode == old(self).mode,
            final(self).subdivisions == old(self).subdivisions,
    {
        self.points.push_back(point);
        self.pending_break = false;
    }

    /// Ends a frame: remembers whether the emitter emitted, and drops the
    /// oldest points while they are expired, keeping at least one.
    /// `expired[i]` says whether point `i` is older than the lifetime.
    pub fn end_frame(&mut self, emitting: bool, expired: &Vec<bool>)
        requires
            expired@.len() == old(self).points@.len(),
        ensures
            final(self).was_active == emitting,
            final(self).points@ == old(self).points@.subrange(
                prune_count(expired@, expired@.len() as int),
                old(self).points@.len() as int,
            ),
            final(self).pending_break == old(self).pending_break,
            final(self).trail_entity == old(self).trail_entity,
            final(self).mode == old(self).mode,
            final(self).subdivisions == old(self).subdivisions,
            final(self).state() == end_state(old(self).state(), emitting, expired@),
    {
        self.was_active = emitting;
        let ghost orig = self.points@;
        let ghost n = orig.len() as int;
        let mut k: usize = 0;
        let total = expired.len();
        proof {
            lemma_prune_count_bounds(expired@, n);
        }
        while self.points.len() > 1 && expired[k]
            invariant
                n == orig.len(),
                expired@.len() == n,
                total == n,
                0 <= k <= prune_count(expired@, n),
                self.points@ == orig.subrange(k as int, n),
                forall|j: int| 0 <= j < k ==> #[trigger] expired@[j],
                prune_count(expired@, n) <= if n == 0 {
                    0
                } else {
                    n - 1
                },
                self.was_active == emitting,
                self.pending_break == old(self).pending_break,
                self.trail_entity == old(self).trail_entity,
                self.mode == old(self).mode,
                self.subdivisions == old(self).subdivisions,
            decreases self.points@.len(),
        {
            proof {
                lemma_prune_count_prefix(expired@, n, k as int);
            }
            self.points.pop_front();
            k = k + 1;
        }
        proof {
            lemma_prune_count_stop(expired@, n, k as int);
        }
    }

    /// Whether there are enough points to draw a ribbon.
    pub fn needs_mesh(&self) -> (r: bool)
        ensures
            r == (self.points@.len() >= 2),
    {
        self.points.len() >= 2
    }

    /// What to do with the drawing entity, given whether a mesh was built.
    /// When there is nothing to draw, the entity is forgotten.
    pub fn trail_action(&mut self, has_mesh: bool) -> (r: TrailAction)
        ensures
            has_mesh ==> final(self).trail_entity == old(self).trail_entity && r == match old(self).trail_entity {
                Some(e) => TrailAction::Update(e),
                None => TrailAction::Spawn,
            },
            !has_mesh ==> final(self).trail_entity is None && r == match old(self).trail_entity {
                Some(e) => TrailAction::Despawn(e),
                None => TrailAction::Nothing,
            },
            final(self).points@ == old(self).points@,
            final(self).was_active == old(self).was_active,
            final(self).pending_break == old(self).pending_break,
            final(self).mode == old(self).mode,
            final(self).subdivisions == old(self).subdivisions,
    {
        if has_mesh {
            match self.trail_entity {
                Some(e) => TrailAction::Update(e),
                None => TrailAction::Spawn,
            }
        } else {
            match self.trail_entity {
                Some(e) => {
                    self.trail_entity = None;
                    TrailAction::Despawn(e)
                },
                None => TrailAction::Nothing,
            }
        }
    }
}

proof fn lemma_prune_count_bounds(expired: Seq<bool>, n: int)
    ensures
        0 <= prune_count(expired, n),
        n >= 1 ==> prune_count(expired, n) <= n - 1,
        n <= 1 ==> prune_count(expired, n) == 0,
    decreases n,
{
    if n > 1 {
        lemma_prune_count_bounds(expired, n - 1);
    }
}

/// Below the count, every point is expired.
proof fn lemma_prune_count_prefix(expired: Seq<bool>, n: int, k: int)
    requires
        0 <= k,
        k + 1 < n,
        expired.len() == n,
        expired[k],
        forall|j: int| 0 <= j < k ==> #[trigger] expired[j],
        k <= prune_count(expired, n),
    ensures
        k + 1 <= prune_count(expired, n),
{
    lemma_prune_count_all(expired, k + 2);
    lemma_prune_count_grows(expired, k + 2, n);
}

/// When the first `m - 1` points are expired, the count is `m - 1`.
proof fn lemma_prune_count_all(expired: Seq<bool>, m: int)
    requires
        1 <= m <= expired.len(),
        forall|j: int| 0 <= j < m - 1 ==> #[trigger] expired[j],
    ensures
        prune_count(expired, m) == m - 1,
    decreases m,
{
    if m > 1 {
        lemma_prune_count_all(expired, m - 1);
    }
}

proof fn lemma_prune_count_grows(expired: Seq<bool>, a: int, b: int)
    requires
        1 <= a <= b,
    ensures
        prune_count(expired, a) <= prune_count(expired, b),
    decreases b - a,
{
    if a < b {
        lemma_prune_count_grows(expired, a, b - 1);
        lemma_prune_count_bounds(expired, b - 1);
    }
}

/// Where the popping stops is the count.
proof fn lemma_prune_count_stop(expired: Seq<bool>, n: int, k: int)
    requires
        expired.len() == n,
        0 <= k <= prune_count(expired, n),
        forall|j: int| 0 <= j < k ==> #[trigger] expired[j],
        n - k <= 1 || !expired[k],
    ensures
        k == prune_count(expired, n),
    decreases n,
{
    lemma_prune_count_bounds(expired, n);
    if n > 1 && k < n - 1 {
        // the count cannot pass the first fresh point
        lemma_prune_count_capped(expired, n, k);
    }
}

/// The count never passes a point that is not expired.
proof fn lemma_prune_count_capped(expired: Seq<bool>, n: int, k: int)
    requires
        0 <= k < n,
        expired.len() >= n,
        !expired[k],
    ensures
        prune_count(expired, n) <= k,
    decreases n,
{
    if n > 1 {
        if k < n - 1 {
            lemma_prune_count_capped(expired, n - 1, k);
        } else {
            lemma_prune_count_bounds(expired, n);
        }
    }
}

} // verus!

verus! {

/// The pruned points are all expired, pruning keeps at least one point,
/// and it stops at the first point that has not expired.
pub proof fn lemma_prune_count_facts(expired: Seq<bool>, n: int)
    requires
        n <= expired.len(),
    ensures
        0 <= prune_count(expired, n),
        n >= 1 ==> prune_count(expired, n) < n,
        n <= 1 ==> prune_count(expired, n) == 0,
        forall|j: int| 0 <= j < prune_count(expired, n) ==> #[trigger] expired[j],
        n == expired.len() && prune_count(expired, n) < n - 1 ==> !expired[prune_count(expired, n)],
    decreases n,
{
    lemma_prune_count_bounds(expired, n);
    if n > 1 {
        lemma_prune_count_facts(expired, n - 1);
    }
    let c = prune_count(expired, n);
    if n == expired.len() && c < n - 1 && expired[c] {
        lemma_prune_count_prefix(expired, n, c);
    }
}

} // verus!
