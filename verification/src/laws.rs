//! Properties that hold across the library's operations.
use vstd::prelude::*;

use crate::animation::{command_action, command_target, group_pairs, plan_clip_map, plan_node_map, NodeAction};
use crate::graph_desc::{AnimeGraphCommand, AnimeGraphDesc, NodeDesc};
use crate::graph_plan::PlanStep;
use crate::meshes::{belt_inner, belt_outer};
use crate::graph_plan::{
    added, attached, comes_before, is_candidate, is_plan_of, is_root_node, node_name, node_named, parent_of,
    root_pos, step_parent_ok, has_node_named,
};
use crate::bevy_types::node_index_value;
use crate::trail::{
    action_timings, burst_starts, prune_count, FxConfig, pushed_flag, run_frames, timings_of_node, TrailEmitter, TrailEmitterTiming, TrailFrame,
    TrailState,
};

verus! {

/// A node whose parent is not in the graph is not in the graph either:
/// leaving a node out leaves out everything below it.
pub proof fn law_subtree_left_out<W>(d: AnimeGraphDesc<W>, clips: Seq<Seq<char>>, i: int)
    requires
        d.names_distinct(),
        is_candidate(d, i),
        parent_of(d, i)->0 != node_name(d, root_pos(d)),
        !has_node_named(d, parent_of(d, i)->0) || !added(d, clips, node_named(d, parent_of(d, i)->0)),
    ensures
        !added(d, clips, i),
{
    if attached(d, clips, i) {
        crate::graph_plan::lemma_attached_unfold(d, clips, i);
    }
}

/// Every node in the graph hangs from the root through nodes in the graph:
/// its parent is the root, or a node in the graph added no later than it.
pub proof fn law_parent_added_first<W>(d: AnimeGraphDesc<W>, clips: Seq<Seq<char>>, i: int)
    requires
        d.names_distinct(),
        added(d, clips, i),
    ensures
        parent_of(d, i)->0 == node_name(d, root_pos(d)) || ({
            let j = node_named(d, parent_of(d, i)->0);
            &&& added(d, clips, j)
            &&& comes_before(d, clips, j, i)
        }),
{
    crate::graph_plan::lemma_attached_unfold(d, clips, i);
}

/// A plan adds each node at most once.
pub proof fn law_plan_adds_once<W>(plan: crate::graph_plan::GraphPlan, d: AnimeGraphDesc<W>, clips: Seq<Seq<char>>, s: int, t: int)
    requires
        is_plan_of(plan, d, clips),
        0 <= s < t < plan.steps@.len(),
    ensures
        plan.steps@[s].node != plan.steps@[t].node,
{
    assert(comes_before(d, clips, plan.steps@[s].node as int, plan.steps@[t].node as int));
}

/// In a plan, every step's parent is the root or an earlier step, and it
/// is the node that the step's node names as parent.
pub proof fn law_plan_parent_first<W>(plan: crate::graph_plan::GraphPlan, d: AnimeGraphDesc<W>, clips: Seq<Seq<char>>, s: int)
    requires
        is_plan_of(plan, d, clips),
        0 <= s < plan.steps@.len(),
    ensures
        match plan.steps@[s].parent {
            None => parent_of(d, plan.steps@[s].node as int)->0 == node_name(d, plan.root as int),
            Some(t) => t < s && node_name(d, plan.steps@[t as int].node as int) == parent_of(
                d,
                plan.steps@[s].node as int,
            )->0,
        },
{
    assert(step_parent_ok(d, plan.steps@, plan.root as int, s));
}

/// After the graph is built from a plan, the name map sends the root's name
/// to the root, and the name of each step's node to the graph node that
/// the step received.
pub proof fn law_names_find_their_nodes<W>(
    plan: crate::graph_plan::GraphPlan,
    d: AnimeGraphDesc<W>,
    clips: Seq<Seq<char>>,
    root_value: u32,
    values: Seq<u32>,
    s: int,
)
    requires
        d.names_distinct(),
        is_plan_of(plan, d, clips),
        root_pos(d) != -1,
        values.len() == plan.steps@.len(),
        0 <= s < plan.steps@.len(),
    ensures
        plan_node_map(d, plan.steps@, plan.root as int, root_value, values, plan.steps@.len() as int)[node_name(
            d,
            plan.root as int,
        )] == root_value,
        plan_node_map(d, plan.steps@, plan.root as int, root_value, values, plan.steps@.len() as int)[node_name(
            d,
            plan.steps@[s].node as int,
        )] == values[s],
{
    lemma_node_map_root(plan, d, clips, root_value, values, plan.steps@.len() as int);
    lemma_node_map_step(plan, d, clips, root_value, values, s, plan.steps@.len() as int);
}

/// No step's node carries the root's name.
proof fn lemma_step_not_root<W>(plan: crate::graph_plan::GraphPlan, d: AnimeGraphDesc<W>, clips: Seq<Seq<char>>, s: int)
    requires
        d.names_distinct(),
        is_plan_of(plan, d, clips),
        root_pos(d) != -1,
        0 <= s < plan.steps@.len(),
    ensures
        node_name(d, plan.steps@[s].node as int) != node_name(d, plan.root as int),
{
    let i = plan.steps@[s].node as int;
    crate::graph_plan::lemma_attached_unfold(d, clips, i);
    crate::graph_plan::lemma_root_pos_is_root(d);
    assert(is_root_node(d, plan.root as int));
    assert(!is_root_node(d, i));
    assert(d.nodes@[i].0@ != d.nodes@[plan.root as int].0@);
}

proof fn lemma_node_map_root<W>(
    plan: crate::graph_plan::GraphPlan,
    d: AnimeGraphDesc<W>,
    clips: Seq<Seq<char>>,
    root_value: u32,
    values: Seq<u32>,
    k: int,
)
    requires
        d.names_distinct(),
        is_plan_of(plan, d, clips),
        root_pos(d) != -1,
        values.len() == plan.steps@.len(),
        0 <= k <= plan.steps@.len(),
    ensures
        plan_node_map(d, plan.steps@, plan.root as int, root_value, values, k).contains_key(node_name(d, plan.root as int)),
        plan_node_map(d, plan.steps@, plan.root as int, root_value, values, k)[node_name(d, plan.root as int)] == root_value,
    decreases k,
{
    if k > 0 {
        lemma_node_map_root(plan, d, clips, root_value, values, k - 1);
        lemma_step_not_root(plan, d, clips, k - 1);
    }
}

proof fn lemma_node_map_step<W>(
    plan: crate::graph_plan::GraphPlan,
    d: AnimeGraphDesc<W>,
    clips: Seq<Seq<char>>,
    root_value: u32,
    values: Seq<u32>,
    s: int,
    k: int,
)
    requires
        d.names_distinct(),
        is_plan_of(plan, d, clips),
        values.len() == plan.steps@.len(),
        0 <= s < k <= plan.steps@.len(),
    ensures
        plan_node_map(d, plan.steps@, plan.root as int, root_value, values, k).contains_key(
            node_name(d, plan.steps@[s].node as int),
        ),
        plan_node_map(d, plan.steps@, plan.root as int, root_value, values, k)[node_name(d, plan.steps@[s].node as int)]
            == values[s],
    decreases k,
{
    if k - 1 > s {
        lemma_node_map_step(plan, d, clips, root_value, values, s, k - 1);
        law_plan_adds_once(plan, d, clips, s, k - 1);
        let a = plan.steps@[s].node as int;
        let b = plan.steps@[k - 1].node as int;
        assert(d.nodes@[a].0@ != d.nodes@[b].0@);
    }
}

/// Pruning a trail keeps at least one of its points, drops only expired
/// points, oldest first, and stops at the first point that has not
/// expired (unless only the newest point is left).
pub proof fn law_prune_keeps_newest(expired: Seq<bool>)
    ensures
        0 <= prune_count(expired, expired.len() as int),
        expired.len() >= 1 ==> prune_count(expired, expired.len() as int) < expired.len(),
        expired.len() == 0 ==> prune_count(expired, 0) == 0,
        forall|j: int| 0 <= j < prune_count(expired, expired.len() as int) ==> #[trigger] expired[j],
        prune_count(expired, expired.len() as int) < expired.len() - 1 ==> !expired[prune_count(
            expired,
            expired.len() as int,
        )],
{
    crate::trail::lemma_prune_count_facts(expired, expired.len() as int);
}

/// How many of the first `k` timings belong to the nodes of `nodes`,
/// counted node by node.
pub open spec fn timings_count<T>(ts: Seq<TrailEmitterTiming<T>>, nodes: Seq<u32>, k: int) -> int
    decreases nodes.len(),
{
    if nodes.len() == 0 {
        0
    } else {
        timings_count(ts, nodes.drop_last(), k) + timings_of_node(ts, nodes.last(), k).len()
    }
}

/// How many times `v` occurs in `nodes`.
pub open spec fn occurrences(nodes: Seq<u32>, v: u32) -> int
    decreases nodes.len(),
{
    if nodes.len() == 0 {
        0
    } else {
        occurrences(nodes.drop_last(), v) + if nodes.last() == v {
            1int
        } else {
            0int
        }
    }
}

/// One more timing adds one to the count of each node that it belongs to.
proof fn lemma_timings_count_step<T>(ts: Seq<TrailEmitterTiming<T>>, nodes: Seq<u32>, k: int)
    requires
        0 <= k < ts.len(),
    ensures
        timings_count(ts, nodes, k + 1) == timings_count(ts, nodes, k) + occurrences(
            nodes,
            node_index_value(ts[k].node_idx),
        ),
    decreases nodes.len(),
{
    if nodes.len() > 0 {
        lemma_timings_count_step(ts, nodes.drop_last(), k);
    }
}

/// A value that a list lacks occurs in it no times.
proof fn lemma_occurrences_absent(nodes: Seq<u32>, v: u32)
    requires
        !nodes.contains(v),
    ensures
        occurrences(nodes, v) == 0,
    decreases nodes.len(),
{
    if nodes.len() > 0 {
        assert(!nodes.drop_last().contains(v)) by {
            if nodes.drop_last().contains(v) {
                let i = choose|i: int| 0 <= i < nodes.drop_last().len() && nodes.drop_last()[i] == v;
                assert(nodes[i] == v);
            }
        }
        assert(nodes.last() != v) by {
            if nodes.last() == v {
                assert(nodes[nodes.len() - 1] == v);
            }
        }
        lemma_occurrences_absent(nodes.drop_last(), v);
    }
}

/// A value of a list without duplicates occurs in it once.
proof fn lemma_occurrences_once(nodes: Seq<u32>, v: u32)
    requires
        nodes.no_duplicates(),
        nodes.contains(v),
    ensures
        occurrences(nodes, v) == 1,
    decreases nodes.len(),
{
    let rest = nodes.drop_last();
    assert(rest.no_duplicates()) by {
        assert forall|i: int, j: int| 0 <= i < rest.len() && 0 <= j < rest.len() && i != j implies rest[i]
            != rest[j] by {
            assert(rest[i] == nodes[i] && rest[j] == nodes[j]);
        }
    }
    if nodes.last() == v {
        assert(!rest.contains(v)) by {
            if rest.contains(v) {
                let i = choose|i: int| 0 <= i < rest.len() && rest[i] == v;
                assert(nodes[i] == nodes[nodes.len() - 1]);
            }
        }
        lemma_occurrences_absent(rest, v);
    } else {
        assert(rest.contains(v)) by {
            let i = choose|i: int| 0 <= i < nodes.len() && nodes[i] == v;
            assert(i != nodes.len() - 1);
            assert(rest[i] == v);
        }
        lemma_occurrences_once(rest, v);
    }
}

/// The timings of an emitter, split by node, add up to all of them: over
/// a list of distinct nodes that holds the node of every timing, the
/// numbers of timings of each node (what `TrailEmitter::timings_of` gives)
/// sum to the number of timings.
pub proof fn law_timings_split_by_node<T>(e: TrailEmitter<T>, nodes: Seq<u32>)
    requires
        nodes.no_duplicates(),
        forall|k: int|
            0 <= k < e.timings_spec().len() ==> nodes.contains(#[trigger] node_index_value(e.timings_spec()[k].node_idx)),
    ensures
        timings_count(e.timings_spec(), nodes, e.timings_spec().len() as int) == e.timings_spec().len(),
{
    lemma_timings_count_prefix(e.timings_spec(), nodes, e.timings_spec().len() as int);
}

/// Over the first `k` timings, the counts of the nodes add up to `k`.
proof fn lemma_timings_count_prefix<T>(ts: Seq<TrailEmitterTiming<T>>, nodes: Seq<u32>, k: int)
    requires
        0 <= k <= ts.len(),
        nodes.no_duplicates(),
        forall|k2: int| 0 <= k2 < ts.len() ==> nodes.contains(#[trigger] node_index_value(ts[k2].node_idx)),
    ensures
        timings_count(ts, nodes, k) == k,
    decreases k,
{
    if k == 0 {
        lemma_timings_count_empty(ts, nodes);
    } else {
        lemma_timings_count_prefix(ts, nodes, k - 1);
        lemma_timings_count_step(ts, nodes, k - 1);
        lemma_occurrences_once(nodes, node_index_value(ts[k - 1].node_idx));
    }
}

/// Before any timing, every node has none.
proof fn lemma_timings_count_empty<T>(ts: Seq<TrailEmitterTiming<T>>, nodes: Seq<u32>)
    ensures
        timings_count(ts, nodes, 0) == 0,
    decreases nodes.len(),
{
    if nodes.len() > 0 {
        lemma_timings_count_empty(ts, nodes.drop_last());
    }
}

/// No point is pushed in the frames from `j` up to, not including, `k`.
pub open spec fn no_push_between<P>(s0: TrailState<P>, frames: Seq<TrailFrame<P>>, j: int, k: int) -> bool {
    forall|i: int| j <= i < k ==> #[trigger] pushed_flag(s0, frames, i) is None
}

/// The cut is pending after `k` frames exactly when a burst began in one
/// of them and no point was pushed since, that frame included.
proof fn lemma_cut_pending<P>(s0: TrailState<P>, frames: Seq<TrailFrame<P>>, k: int)
    requires
        !s0.pending_break,
        0 <= k <= frames.len(),
    ensures
        run_frames(s0, frames, k).pending_break <==> exists|j: int|
            0 <= j < k && #[trigger] burst_starts(s0, frames, j) && no_push_between(s0, frames, j, k),
    decreases k,
{
    if k > 0 {
        let p = k - 1;
        lemma_cut_pending(s0, frames, p);
        let before = exists|j: int| 0 <= j < p && #[trigger] burst_starts(s0, frames, j) && no_push_between(s0, frames, j, p);
        let after = exists|j: int| 0 <= j < k && #[trigger] burst_starts(s0, frames, j) && no_push_between(s0, frames, j, k);
        assert(after <==> (pushed_flag(s0, frames, p) is None && (before || burst_starts(s0, frames, p)))) by {
            if after {
                let j = choose|j: int| 0 <= j < k && #[trigger] burst_starts(s0, frames, j) && no_push_between(s0, frames, j, k);
                assert(pushed_flag(s0, frames, p) is None);
                if j < p {
                    assert(no_push_between(s0, frames, j, p));
                }
            }
            if pushed_flag(s0, frames, p) is None {
                if burst_starts(s0, frames, p) {
                    assert(no_push_between(s0, frames, p, k));
                } else if before {
                    let j = choose|j: int| 0 <= j < p && #[trigger] burst_starts(s0, frames, j) && no_push_between(s0, frames, j, p);
                    assert(no_push_between(s0, frames, j, k));
                }
            }
        }
    }
}

/// Over many frames, a pushed point is cut from the one before exactly
/// when it is the first point pushed since a burst began after an idle
/// frame with points left over, counting the burst's own frame, even when
/// that frame pushed nothing. Every other point, the first one included,
/// is not cut. `s0` is a state whose cut is not pending, as
/// `TrailHistory::start` gives.
pub proof fn law_cut_marks_first_point_of_burst<P>(s0: TrailState<P>, frames: Seq<TrailFrame<P>>, k: int)
    requires
        !s0.pending_break,
        0 <= k < frames.len(),
        pushed_flag(s0, frames, k) is Some,
    ensures
        pushed_flag(s0, frames, k)->0 <==> exists|j: int|
            0 <= j <= k && #[trigger] burst_starts(s0, frames, j) && no_push_between(s0, frames, j, k),
{
    lemma_cut_pending(s0, frames, k);
    let pending = exists|j: int| 0 <= j < k && #[trigger] burst_starts(s0, frames, j) && no_push_between(s0, frames, j, k);
    let goal = exists|j: int| 0 <= j <= k && #[trigger] burst_starts(s0, frames, j) && no_push_between(s0, frames, j, k);
    assert(goal <==> (pending || burst_starts(s0, frames, k))) by {
        if goal {
            let j = choose|j: int| 0 <= j <= k && #[trigger] burst_starts(s0, frames, j) && no_push_between(s0, frames, j, k);
            if j < k {
                assert(pending);
            }
        }
        if burst_starts(s0, frames, k) {
            assert(no_push_between(s0, frames, k, k));
        }
    }
}

// ---------------------------------------------------------------------------
// Commands, clip maps, effect timings, mask groups, belt indices
// ---------------------------------------------------------------------------

/// Each kind of command asks its own action of the node it addresses: a
/// stop stops, a replay replays, a weight sets that weight; and every
/// command addresses the node its name gives.
pub proof fn law_command_kinds<W>(cmd: AnimeGraphCommand<W>)
    ensures
        cmd is PlayRepeat <==> command_action(cmd) is PlayRepeat,
        cmd is StopPlay <==> command_action(cmd) is StopPlay,
        cmd is SetWeight <==> command_action(cmd) is SetWeight,
        forall|n: String, w: W|
            cmd == AnimeGraphCommand::SetWeight(n, w) ==> command_action(cmd) == NodeAction::SetWeight(w)
                && command_target(cmd) == n@,
        forall|n: String| cmd == AnimeGraphCommand::<W>::StopPlay(n) ==> command_target(cmd) == n@,
        forall|n: String| cmd == AnimeGraphCommand::<W>::PlayRepeat(n) ==> command_target(cmd) == n@,
{
}

/// Whether step `s` plays the clip called `name`, whatever its mask.
pub open spec fn step_plays_clip<W>(d: AnimeGraphDesc<W>, steps: Seq<PlanStep>, s: int, name: Seq<char>) -> bool {
    d.nodes@[steps[s].node as int].1 matches NodeDesc::Clip(c) && c.clip@ == name
}

/// The clip map of a built graph holds exactly the clips that its steps
/// play, masked or not, and maps each to the node of the last step that
/// plays it.
pub proof fn law_clip_map_records_every_clip<W>(
    d: AnimeGraphDesc<W>,
    steps: Seq<PlanStep>,
    values: Seq<u32>,
    k: int,
    name: Seq<char>,
)
    requires
        0 <= k <= steps.len(),
    ensures
        plan_clip_map(d, steps, values, k).contains_key(name) <==> exists|s: int|
            0 <= s < k && #[trigger] step_plays_clip(d, steps, s, name),
        forall|t: int|
            0 <= t < k && #[trigger] step_plays_clip(d, steps, t, name) && (forall|u: int|
                t < u < k ==> !step_plays_clip(d, steps, u, name)) ==> plan_clip_map(d, steps, values, k)[name]
                == values[t],
    decreases k,
{
    if k > 0 {
        law_clip_map_records_every_clip(d, steps, values, k - 1, name);
        if step_plays_clip(d, steps, k - 1, name) {
            assert(plan_clip_map(d, steps, values, k).contains_key(name));
        } else {
            assert(plan_clip_map(d, steps, values, k).contains_key(name) == plan_clip_map(d, steps, values, k - 1).contains_key(name)) by {
                match d.nodes@[steps[k - 1].node as int].1 {
                    NodeDesc::Clip(c) => {
                        assert(c.clip@ != name);
                    },
                    _ => {},
                }
            }
            if plan_clip_map(d, steps, values, k - 1).contains_key(name) {
                assert(plan_clip_map(d, steps, values, k)[name] == plan_clip_map(d, steps, values, k - 1)[name]) by {
                    match d.nodes@[steps[k - 1].node as int].1 {
                        NodeDesc::Clip(c) => {
                            assert(c.clip@ != name);
                        },
                        _ => {},
                    }
                }
            }
        }
        assert forall|t: int|
            0 <= t < k && #[trigger] step_plays_clip(d, steps, t, name) && (forall|u: int|
                t < u < k ==> !step_plays_clip(d, steps, u, name)) implies plan_clip_map(d, steps, values, k)[name]
            == values[t] by {
            if t < k - 1 {
                assert(!step_plays_clip(d, steps, k - 1, name));
                match d.nodes@[steps[k - 1].node as int].1 {
                    NodeDesc::Clip(c) => {
                        assert(c.clip@ != name);
                    },
                    _ => {},
                }
            }
        }
    }
}

/// Every span of an action that is aimed at the mesh `target` gives one
/// timing on the action's node, with the span's start and end, in the
/// order of the spans; the spans aimed at other meshes give none.
pub proof fn law_every_span_gives_a_timing<T>(fx: Seq<FxConfig<T>>, node: u32, target: Seq<char>)
    ensures
        action_timings(fx, node, target, fx.len() as int) == fx.filter(|c: FxConfig<T>| c.target_name@ == target).map_values(
            |c: FxConfig<T>| (node, c.start_sec, c.end_sec),
        ),
{
    lemma_action_timings_take(fx, node, target, fx.len() as int);
    assert(fx.take(fx.len() as int) =~= fx);
}

proof fn lemma_action_timings_take<T>(fx: Seq<FxConfig<T>>, node: u32, target: Seq<char>, k: int)
    requires
        0 <= k <= fx.len(),
    ensures
        action_timings(fx, node, target, k) == fx.take(k).filter(|c: FxConfig<T>| c.target_name@ == target).map_values(
            |c: FxConfig<T>| (node, c.start_sec, c.end_sec),
        ),
    decreases k,
{
    let p = |c: FxConfig<T>| c.target_name@ == target;
    let f = |c: FxConfig<T>| (node, c.start_sec, c.end_sec);
    reveal(Seq::filter);
    if k == 0 {
        assert(fx.take(0).filter(p) =~= Seq::<FxConfig<T>>::empty());
        assert(fx.take(0).filter(p).map_values(f) =~= Seq::<(u32, T, T)>::empty());
    } else {
        lemma_action_timings_take(fx, node, target, k - 1);
        assert(fx.take(k).drop_last() =~= fx.take(k - 1));
        assert(fx.take(k).last() == fx[k - 1]);
        let prev = fx.take(k - 1).filter(p);
        if p(fx[k - 1]) {
            assert(fx.take(k).filter(p) == prev.push(fx[k - 1]));
            assert(prev.push(fx[k - 1]).map_values(f) =~= prev.map_values(f).push(f(fx[k - 1])));
        } else {
            assert(fx.take(k).filter(p) == prev);
        }
    }
}

/// Every bone name of a mask group that is a known bone gives one
/// (target, group) pair, whatever the names before it; unknown names give
/// none; the pairs come in the order of the names.
pub proof fn law_every_known_bone_joins_its_group(targets: Seq<String>, m: Map<Seq<char>, u128>, g: u32)
    ensures
        group_pairs(targets, m, g, targets.len() as int) == targets.filter(|t: String| m.contains_key(t@)).map_values(
            |t: String| (m[t@], g),
        ),
{
    lemma_group_pairs_take(targets, m, g, targets.len() as int);
    assert(targets.take(targets.len() as int) =~= targets);
}

proof fn lemma_group_pairs_take(targets: Seq<String>, m: Map<Seq<char>, u128>, g: u32, k: int)
    requires
        0 <= k <= targets.len(),
    ensures
        group_pairs(targets, m, g, k) == targets.take(k).filter(|t: String| m.contains_key(t@)).map_values(
            |t: String| (m[t@], g),
        ),
    decreases k,
{
    let p = |t: String| m.contains_key(t@);
    let f = |t: String| (m[t@], g);
    reveal(Seq::filter);
    if k == 0 {
        assert(targets.take(0).filter(p) =~= Seq::<String>::empty());
        assert(targets.take(0).filter(p).map_values(f) =~= Seq::<(u128, u32)>::empty());
    } else {
        lemma_group_pairs_take(targets, m, g, k - 1);
        assert(targets.take(k).drop_last() =~= targets.take(k - 1));
        assert(targets.take(k).last() == targets[k - 1]);
        let prev = targets.take(k - 1).filter(p);
        if p(targets[k - 1]) {
            assert(targets.take(k).filter(p) == prev.push(targets[k - 1]));
            assert(prev.push(targets[k - 1]).map_values(f) =~= prev.map_values(f).push(f(targets[k - 1])));
        } else {
            assert(targets.take(k).filter(p) == prev);
        }
    }
}

/// Segment `i` of a belt joins the two vertices of step `i` to the two of
/// step `i + 1` (vertices `2i` to `2i + 3`) in two triangles that share a
/// diagonal; the inner side joins the same vertices shifted past the outer
/// ones, each triangle wound the other way.
pub proof fn law_belt_segments(i: int, offset: int)
    requires
        0 <= i,
    ensures
        forall|j: int| 0 <= j < 6 ==> 2 * i <= #[trigger] belt_outer(i, j) <= 2 * i + 3,
        belt_outer(i, 0) != belt_outer(i, 1) && belt_outer(i, 1) != belt_outer(i, 2) && belt_outer(i, 0) != belt_outer(i, 2),
        belt_outer(i, 3) != belt_outer(i, 4) && belt_outer(i, 4) != belt_outer(i, 5) && belt_outer(i, 3) != belt_outer(i, 5),
        belt_outer(i, 0) == 2 * i && belt_outer(i, 5) == 2 * i + 3,
        belt_outer(i, 1) == belt_outer(i, 4) && belt_outer(i, 2) == belt_outer(i, 3),
        belt_inner(i, 0, offset) == belt_outer(i, 0) + offset,
        belt_inner(i, 1, offset) == belt_outer(i, 2) + offset,
        belt_inner(i, 2, offset) == belt_outer(i, 1) + offset,
        belt_inner(i, 3, offset) == belt_outer(i, 3) + offset,
        belt_inner(i, 4, offset) == belt_outer(i, 5) + offset,
        belt_inner(i, 5, offset) == belt_outer(i, 4) + offset,
{
}

} // verus!
