//! Planning the construction of an animation graph from its description.
//!
//! Every node but the root names its parent through the first edge that
//! leaves it. Starting from the root, nodes are attached in passes over the
//! nodes in their listed order: a node is attached once its parent is in
//! the graph, in the same pass when the parent came before it, in the next
//! pass otherwise. A node whose clip is missing, or whose mask names an
//! undefined group, is left out, and so is everything below it.
use vstd::prelude::*;

use crate::graph_desc::{AnimeGraphDesc, EdgeDesc, MaskGroupIdx, NodeDesc};
use crate::mask::{groups_in_mask, mask_defined, mask_in_range, mask_indices, checked_mask_bits};

verus! {

// ---------------------------------------------------------------------------
// The model
// ---------------------------------------------------------------------------

/// The name of the node at position `i`.
pub open spec fn node_name<W>(d: AnimeGraphDesc<W>, i: int) -> Seq<char> {
    d.nodes@[i].0@
}

/// Whether the node at position `i` is a root node.
pub open spec fn is_root_node<W>(d: AnimeGraphDesc<W>, i: int) -> bool {
    d.nodes@[i].1 is Root
}

/// The position of the last root node among the first `n` nodes, or -1.
pub open spec fn last_root_below<W>(d: AnimeGraphDesc<W>, n: int) -> int
    decreases n,
{
    if n <= 0 {
        -1
    } else if is_root_node(d, n - 1) {
        n - 1
    } else {
        last_root_below(d, n - 1)
    }
}

/// The position of the root of the graph: the last root node, or -1.
pub open spec fn root_pos<W>(d: AnimeGraphDesc<W>) -> int {
    last_root_below(d, d.nodes@.len() as int)
}

/// The destination of the first edge from position `k` on whose source is `name`.
pub open spec fn parent_from(edges: Seq<EdgeDesc>, name: Seq<char>, k: int) -> Option<Seq<char>>
    decreases edges.len() - k,
{
    if k < 0 || k >= edges.len() {
        None
    } else if edges[k].src@ == name {
        Some(edges[k].dest@)
    } else {
        parent_from(edges, name, k + 1)
    }
}

/// The parent name of the node at position `i`: the destination of the
/// first edge that leaves it.
pub open spec fn parent_of<W>(d: AnimeGraphDesc<W>, i: int) -> Option<Seq<char>> {
    parent_from(d.edges@, node_name(d, i), 0)
}

/// A node that is not a root and has a parent edge.
pub open spec fn is_candidate<W>(d: AnimeGraphDesc<W>, i: int) -> bool {
    0 <= i < d.nodes@.len() && !is_root_node(d, i) && parent_of(d, i) is Some
}

/// The mask groups that a node lists.
pub open spec fn node_mask<W>(nd: NodeDesc<W>) -> Seq<MaskGroupIdx> {
    match nd {
        NodeDesc::Root => Seq::empty(),
        NodeDesc::Clip(c) => c.mask@,
        NodeDesc::Blend(b) => b.mask@,
        NodeDesc::AdditiveBlend(a) => a.mask@,
    }
}

/// A clip node's clip is among the available clips; other nodes need none.
pub open spec fn clip_found<W>(nd: NodeDesc<W>, clips: Seq<Seq<char>>) -> bool {
    match nd {
        NodeDesc::Clip(c) => clips.contains(c.clip@),
        _ => true,
    }
}

/// The node at position `i` can be built once its parent is there: its
/// clip is available and its mask, if any, names defined groups only.
pub open spec fn node_ok<W>(d: AnimeGraphDesc<W>, clips: Seq<Seq<char>>, i: int) -> bool {
    let nd = d.nodes@[i].1;
    clip_found(nd, clips) && (node_mask(nd).len() == 0 || mask_defined(
        node_mask(nd),
        d.mask_groups.0@.len(),
    ))
}

/// A node that carries the given name.
pub open spec fn has_node_named<W>(d: AnimeGraphDesc<W>, name: Seq<char>) -> bool {
    exists|j: int| 0 <= j < d.nodes@.len() && #[trigger] node_name(d, j) == name
}

/// The position of the node that carries the given name.
pub open spec fn node_named<W>(d: AnimeGraphDesc<W>, name: Seq<char>) -> int {
    choose|j: int| 0 <= j < d.nodes@.len() && #[trigger] node_name(d, j) == name
}

/// The pass in which the candidate at position `i` finds its parent in the
/// graph, following at most `fuel` parent links; `None` when it never does.
/// Children of the root come in the first pass; a node comes in the pass of
/// its parent when the parent is listed before it, and in the next otherwise.
pub open spec fn round_of<W>(d: AnimeGraphDesc<W>, clips: Seq<Seq<char>>, i: int, fuel: nat) -> Option<
    nat,
>
    decreases fuel,
{
    if fuel == 0 || !is_candidate(d, i) {
        None
    } else {
        let p = parent_of(d, i)->0;
        if p == node_name(d, root_pos(d)) {
            Some(1)
        } else if has_node_named(d, p) {
            let j = node_named(d, p);
            if node_ok(d, clips, j) {
                match round_of(d, clips, j, (fuel - 1) as nat) {
                    Some(r) => Some(
                        if j < i {
                            r
                        } else {
                            r + 1
                        },
                    ),
                    None => None,
                }
            } else {
                None
            }
        } else {
            None
        }
    }
}

/// The candidate at position `i` finds its parent in the graph in some pass.
pub open spec fn attached<W>(d: AnimeGraphDesc<W>, clips: Seq<Seq<char>>, i: int) -> bool {
    exists|f: nat| #[trigger] round_of(d, clips, i, f) is Some
}

/// The pass in which an attached candidate finds its parent.
pub open spec fn round<W>(d: AnimeGraphDesc<W>, clips: Seq<Seq<char>>, i: int) -> nat {
    round_of(d, clips, i, choose|f: nat| #[trigger] round_of(d, clips, i, f) is Some)->0
}

/// The node at position `i` goes into the graph.
pub open spec fn added<W>(d: AnimeGraphDesc<W>, clips: Seq<Seq<char>>, i: int) -> bool {
    attached(d, clips, i) && node_ok(d, clips, i)
}

/// Node `a` is added before node `b`: in an earlier pass, or in the same
/// pass and listed before it.
pub open spec fn comes_before<W>(d: AnimeGraphDesc<W>, clips: Seq<Seq<char>>, a: int, b: int) -> bool {
    round(d, clips, a) < round(d, clips, b) || (round(d, clips, a) == round(d, clips, b) && a < b)
}

} // verus!

verus! {

// ---------------------------------------------------------------------------
// Facts about the model
// ---------------------------------------------------------------------------

/// Following more parent links never changes a pass that was found.
proof fn lemma_round_stable<W>(d: AnimeGraphDesc<W>, clips: Seq<Seq<char>>, i: int, f1: nat, f2: nat)
    requires
        round_of(d, clips, i, f1) is Some,
        f1 <= f2,
    ensures
        round_of(d, clips, i, f2) == round_of(d, clips, i, f1),
    decreases f1,
{
    let p = parent_of(d, i)->0;
    if p != node_name(d, root_pos(d)) {
        let j = node_named(d, p);
        lemma_round_stable(d, clips, j, (f1 - 1) as nat, (f2 - 1) as nat);
    }
}

/// Any fuel that finds the pass of an attached node finds `round`.
proof fn lemma_round_value<W>(d: AnimeGraphDesc<W>, clips: Seq<Seq<char>>, i: int, f: nat)
    requires
        round_of(d, clips, i, f) is Some,
    ensures
        attached(d, clips, i),
        round_of(d, clips, i, f)->0 == round(d, clips, i),
{
    let f0 = choose|f: nat| #[trigger] round_of(d, clips, i, f) is Some;
    if f0 <= f {
        lemma_round_stable(d, clips, i, f0, f);
    } else {
        lemma_round_stable(d, clips, i, f, f0);
    }
}

/// With distinct names, the node named like node `j` is `j`.
proof fn lemma_named<W>(d: AnimeGraphDesc<W>, j: int)
    requires
        d.names_distinct(),
        0 <= j < d.nodes@.len(),
    ensures
        has_node_named(d, node_name(d, j)),
        node_named(d, node_name(d, j)) == j,
{
    assert(node_name(d, j) == node_name(d, j));
    let k = node_named(d, node_name(d, j));
    assert(d.nodes@[k].0@ == d.nodes@[j].0@);
}

/// What an attached node's parent is.
pub proof fn lemma_attached_unfold<W>(d: AnimeGraphDesc<W>, clips: Seq<Seq<char>>, i: int)
    requires
        attached(d, clips, i),
    ensures
        is_candidate(d, i),
        round(d, clips, i) >= 1,
        parent_of(d, i)->0 == node_name(d, root_pos(d)) ==> round(d, clips, i) == 1,
        parent_of(d, i)->0 != node_name(d, root_pos(d)) ==> {
            let j = node_named(d, parent_of(d, i)->0);
            &&& has_node_named(d, parent_of(d, i)->0)
            &&& 0 <= j < d.nodes@.len()
            &&& node_name(d, j) == parent_of(d, i)->0
            &&& node_ok(d, clips, j)
            &&& attached(d, clips, j)
            &&& j != i
            &&& round(d, clips, i) == if j < i {
                round(d, clips, j)
            } else {
                round(d, clips, j) + 1
            }
        },
{
    let f = choose|f: nat| #[trigger] round_of(d, clips, i, f) is Some;
    lemma_round_value(d, clips, i, f);
    let p = parent_of(d, i)->0;
    if p != node_name(d, root_pos(d)) {
        let j = node_named(d, p);
        lemma_round_value(d, clips, j, (f - 1) as nat);
        if j == i {
            // a node that is its own parent would come a pass after itself
            assert(round(d, clips, i) == round(d, clips, j) + 1);
        }
    }
    lemma_round_pos(d, clips, i, f);
}

/// Passes are counted from 1.
proof fn lemma_round_pos<W>(d: AnimeGraphDesc<W>, clips: Seq<Seq<char>>, i: int, f: nat)
    requires
        round_of(d, clips, i, f) is Some,
    ensures
        round_of(d, clips, i, f)->0 >= 1,
    decreases f,
{
    let p = parent_of(d, i)->0;
    if p != node_name(d, root_pos(d)) {
        lemma_round_pos(d, clips, node_named(d, p), (f - 1) as nat);
    }
}

/// A candidate whose parent is the root, or an added node, is attached.
proof fn lemma_attached_fold<W>(d: AnimeGraphDesc<W>, clips: Seq<Seq<char>>, i: int)
    requires
        is_candidate(d, i),
        parent_of(d, i)->0 == node_name(d, root_pos(d)) || ({
            let j = node_named(d, parent_of(d, i)->0);
            &&& has_node_named(d, parent_of(d, i)->0)
            &&& node_ok(d, clips, j)
            &&& attached(d, clips, j)
        }),
    ensures
        attached(d, clips, i),
        parent_of(d, i)->0 == node_name(d, root_pos(d)) ==> round(d, clips, i) == 1,
        parent_of(d, i)->0 != node_name(d, root_pos(d)) ==> {
            let j = node_named(d, parent_of(d, i)->0);
            round(d, clips, i) == if j < i {
                round(d, clips, j)
            } else {
                round(d, clips, j) + 1
            }
        },
{
    let p = parent_of(d, i)->0;
    if p == node_name(d, root_pos(d)) {
        assert(round_of(d, clips, i, 1) is Some);
        lemma_round_value(d, clips, i, 1);
    } else {
        let j = node_named(d, p);
        let fj = choose|f: nat| #[trigger] round_of(d, clips, j, f) is Some;
        lemma_round_value(d, clips, j, fj);
        assert(round_of(d, clips, i, fj + 1) is Some);
        lemma_round_value(d, clips, i, fj + 1);
    }
}

/// Passes grow by at most one from parent to child, so an added node in
/// pass `r` has an added ancestor (or itself) in every pass from 1 to `r`.
proof fn lemma_every_pass_below<W>(d: AnimeGraphDesc<W>, clips: Seq<Seq<char>>, i: int, q: nat)
    requires
        added(d, clips, i),
        1 <= q <= round(d, clips, i),
    ensures
        exists|k: int| 0 <= k < d.nodes@.len() && #[trigger] added(d, clips, k) && round(d, clips, k) == q,
    decreases round(d, clips, i), i,
{
    lemma_attached_unfold(d, clips, i);
    if round(d, clips, i) == q {
        assert(added(d, clips, i) && round(d, clips, i) == q);
    } else {
        let j = node_named(d, parent_of(d, i)->0);
        lemma_attached_unfold(d, clips, j);
        lemma_every_pass_below(d, clips, j, q);
    }
}

} // verus!

verus! {

// ---------------------------------------------------------------------------
// Reading the description
// ---------------------------------------------------------------------------

/// The first edge that leaves the node called `name`.
fn find_parent_edge(edges: &Vec<EdgeDesc>, name: &String) -> (r: Option<usize>)
    ensures
        r is None ==> parent_from(edges@, name@, 0) is None,
        r matches Some(k) ==> k < edges@.len() && parent_from(edges@, name@, 0) == Some(
            edges@[k as int].dest@,
        ),
{
    let mut k: usize = 0;
    while k < edges.len()
        invariant
            k <= edges@.len(),
            parent_from(edges@, name@, 0) == parent_from(edges@, name@, k as int),
        decreases edges.len() - k,
    {
        if edges[k].src == *name {
            return Some(k);
        }
        k = k + 1;
    }
    None
}

/// The view of a list of clip names.
pub open spec fn clip_names(clips: Seq<String>) -> Seq<Seq<char>> {
    clips.map_values(|s: String| s@)
}

/// Whether `name` is among the clip names.
fn has_clip(clips: &Vec<String>, name: &String) -> (r: bool)
    ensures
        r == clip_names(clips@).contains(name@),
{
    let mut k: usize = 0;
    while k < clips.len()
        invariant
            k <= clips@.len(),
            forall|j: int| 0 <= j < k ==> clips@[j]@ != name@,
        decreases clips.len() - k,
    {
        if clips[k] == *name {
            assert(clip_names(clips@)[k as int] == name@);
            return true;
        }
        k = k + 1;
    }
    proof {
        if clip_names(clips@).contains(name@) {
            let j = choose|j: int| 0 <= j < clip_names(clips@).len() && clip_names(clips@)[j] == name@;
            assert(clips@[j]@ == name@);
        }
    }
    false
}

/// The non-root nodes that have a parent edge, in list order, each with
/// the edge that names its parent; and the position of the last root node.
fn collect_candidates<W>(desc: &AnimeGraphDesc<W>) -> (r: (Vec<(usize, usize)>, Option<usize>))
    ensures
        r.1 is None <==> root_pos(*desc) == -1,
        r.1 matches Some(k) ==> k == root_pos(*desc) && 0 <= k < desc.nodes@.len() && is_root_node(*desc, k as int),
        forall|c: int|
            0 <= c < r.0@.len() ==> {
                let (i, e) = #[trigger] r.0@[c];
                &&& is_candidate(*desc, i as int)
                &&& e < desc.edges@.len()
                &&& parent_of(*desc, i as int) == Some(desc.edges@[e as int].dest@)
            },
        forall|c1: int, c2: int| 0 <= c1 < c2 < r.0@.len() ==> #[trigger] r.0@[c1].0 < #[trigger] r.0@[c2].0,
        forall|i: int|
            #[trigger] is_candidate(*desc, i) ==> exists|c: int| 0 <= c < r.0@.len() && #[trigger] r.0@[c].0 == i,
{
    let ghost d = *desc;
    let mut cands: Vec<(usize, usize)> = Vec::new();
    let mut root: Option<usize> = None;
    let mut k: usize = 0;
    while k < desc.nodes.len()
        invariant
            d == *desc,
            k <= desc.nodes@.len(),
            root is None ==> last_root_below(d, k as int) == -1,
            root matches Some(x) ==> x == last_root_below(d, k as int) && x < k && is_root_node(d, x as int),
            forall|c: int|
                0 <= c < cands@.len() ==> {
                    let (i, e) = #[trigger] cands@[c];
                    &&& i < k
                    &&& is_candidate(d, i as int)
                    &&& e < d.edges@.len()
                    &&& parent_of(d, i as int) == Some(d.edges@[e as int].dest@)
                },
            forall|c1: int, c2: int| 0 <= c1 < c2 < cands@.len() ==> #[trigger] cands@[c1].0 < #[trigger] cands@[c2].0,
            forall|i: int|
                0 <= i < k && #[trigger] is_candidate(d, i) ==> exists|c: int| 0 <= c < cands@.len() && #[trigger] cands@[c].0 == i,
        decreases desc.nodes.len() - k,
    {
        match &desc.nodes[k].1 {
            NodeDesc::Root => {
                root = Some(k);
            },
            _ => {
                match find_parent_edge(&desc.edges, &desc.nodes[k].0) {
                    Some(e) => {
                        let ghost before = cands@;
                        cands.push((k, e));
                        proof {
                            assert forall|i: int|
                                0 <= i < k + 1 && #[trigger] is_candidate(d, i) implies exists|c: int|
                                    0 <= c < cands@.len() && #[trigger] cands@[c].0 == i by {
                                if i == k {
                                    assert(cands@[before.len() as int].0 == i);
                                } else {
                                    let c = choose|c: int| 0 <= c < before.len() && #[trigger] before[c].0 == i;
                                    assert(cands@[c].0 == i);
                                }
                            }
                        }
                    },
                    None => {
                        proof {
                            assert(!is_candidate(d, k as int));
                        }
                    },
                }
            },
        }
        k = k + 1;
    }
    proof {
        assert forall|i: int| #[trigger] is_candidate(d, i) implies exists|c: int|
            0 <= c < cands@.len() && #[trigger] cands@[c].0 == i by {
            assert(0 <= i < k);
        }
    }
    (cands, root)
}

} // verus!

verus! {

// ---------------------------------------------------------------------------
// The plan
// ---------------------------------------------------------------------------

/// One node to add to the graph.
#[derive(Debug, Clone, Copy, PartialEq, Eq)]
pub struct PlanStep {
    /// The position of the node in the description.
    pub node: usize,
    /// Its parent: the root (`None`) or the node of an earlier step.
    pub parent: Option<usize>,
    /// Its mask, when it lists mask groups.
    pub mask: Option<u64>,
}

/// The nodes to add to a graph, in the order in which they are added.
#[derive(Debug, Clone)]
pub struct GraphPlan {
    /// The position of the root node in the description.
    pub root: usize,
    pub steps: Vec<PlanStep>,
}

/// Why no graph can be built from a description.
#[derive(Debug, Clone, Copy, PartialEq, Eq)]
pub enum PlanError {
    /// No node is a root.
    NoRoot,
    /// More mask groups than an animation mask has bits.
    TooManyMaskGroups,
    /// A node that would be added lists a mask group of index 64 or more.
    MaskGroupOutOfRange { node: usize },
}

/// A node whose mask would be computed lists a group beyond the 64 bits of a mask.
pub open spec fn mask_out_of_range<W>(d: AnimeGraphDesc<W>, clips: Seq<Seq<char>>, i: int) -> bool {
    let nd = d.nodes@[i].1;
    clip_found(nd, clips) && node_mask(nd).len() > 0 && !mask_in_range(node_mask(nd))
}

/// The mask recorded for the node at position `i`.
pub open spec fn step_mask_ok<W>(d: AnimeGraphDesc<W>, i: int, m: Option<u64>) -> bool {
    let mask = node_mask(d.nodes@[i].1);
    if mask.len() == 0 {
        m is None
    } else {
        m matches Some(b) && groups_in_mask(b) == mask_indices(mask)
    }
}

/// The parent recorded for step `s` is the parent that its node names.
pub open spec fn step_parent_ok<W>(d: AnimeGraphDesc<W>, steps: Seq<PlanStep>, root: int, s: int) -> bool {
    let i = steps[s].node as int;
    match steps[s].parent {
        None => parent_of(d, i)->0 == node_name(d, root),
        Some(t) => t < s && parent_of(d, i)->0 == node_name(d, steps[t as int].node as int)
            && parent_of(d, i)->0 != node_name(d, root),
    }
}

/// `plan` adds exactly the nodes that go into the graph, each after its
/// parent, in the order of passes and, within a pass, of the list.
pub open spec fn is_plan_of<W>(plan: GraphPlan, d: AnimeGraphDesc<W>, clips: Seq<Seq<char>>) -> bool {
    let steps = plan.steps@;
    &&& plan.root == root_pos(d)
    &&& forall|s: int|
        0 <= s < steps.len() ==> {
            let i = #[trigger] steps[s].node as int;
            &&& 0 <= i < d.nodes@.len()
            &&& added(d, clips, i)
            &&& step_parent_ok(d, steps, plan.root as int, s)
            &&& step_mask_ok(d, i, steps[s].mask)
        }
    &&& forall|i: int|
        0 <= i < d.nodes@.len() && #[trigger] added(d, clips, i) ==> exists|s: int|
            0 <= s < steps.len() && #[trigger] steps[s].node == i
    &&& forall|s: int, t: int|
        0 <= s < t < steps.len() ==> comes_before(d, clips, #[trigger] steps[s].node as int, #[trigger] steps[t].node as int)
}

enum NodeCheck {
    Skip,
    OutOfRange,
    Add(Option<u64>),
}

fn all_in_range(mask: &Vec<MaskGroupIdx>) -> (r: bool)
    ensures
        r == mask_in_range(mask@),
{
    let mut k: usize = 0;
    while k < mask.len()
        invariant
            k <= mask@.len(),
            forall|j: int| 0 <= j < k ==> #[trigger] mask@[j]@ < 64,
        decreases mask.len() - k,
    {
        if mask[k].idx() >= 64 {
            return false;
        }
        k = k + 1;
    }
    true
}

fn check_mask(mask: &Vec<MaskGroupIdx>, group_count: usize) -> (r: NodeCheck)
    requires
        group_count <= 64,
    ensures
        r is OutOfRange <==> mask@.len() > 0 && !mask_in_range(mask@),
        r is Add <==> mask@.len() == 0 || mask_defined(mask@, group_count as nat),
        r matches NodeCheck::Add(m) ==> if mask@.len() == 0 {
            m is None
        } else {
            m matches Some(b) && groups_in_mask(b) == mask_indices(mask@)
        },
{
    if mask.len() == 0 {
        return NodeCheck::Add(None);
    }
    if !all_in_range(mask) {
        proof {
            if mask_defined(mask@, group_count as nat) {
                let j = choose|j: int| 0 <= j < mask@.len() && !(#[trigger] mask@[j]@ < 64);
                assert(mask@[j]@ < group_count);
            }
        }
        return NodeCheck::OutOfRange;
    }
    match checked_mask_bits(mask, group_count) {
        Ok(b) => NodeCheck::Add(Some(b)),
        Err(_) => NodeCheck::Skip,
    }
}

fn check_node<W>(desc: &AnimeGraphDesc<W>, clips: &Vec<String>, i: usize) -> (r: NodeCheck)
    requires
        i < desc.nodes@.len(),
        !is_root_node(*desc, i as int),
        desc.mask_groups.0@.len() <= 64,
    ensures
        r is OutOfRange <==> mask_out_of_range(*desc, clip_names(clips@), i as int),
        r is Add <==> !mask_out_of_range(*desc, clip_names(clips@), i as int) && node_ok(
            *desc,
            clip_names(clips@),
            i as int,
        ),
        r matches NodeCheck::Add(m) ==> step_mask_ok(*desc, i as int, m),
{
    let group_count = desc.mask_groups.0.len();
    match &desc.nodes[i].1 {
        NodeDesc::Root => NodeCheck::Skip,
        NodeDesc::Clip(c) => {
            if !has_clip(clips, &c.clip) {
                NodeCheck::Skip
            } else {
                check_mask(&c.mask, group_count)
            }
        },
        NodeDesc::Blend(b) => check_mask(&b.mask, group_count),
        NodeDesc::AdditiveBlend(a) => check_mask(&a.mask, group_count),
    }
}

/// Where the node called `name` already stands in the graph: at the root,
/// at one of the steps so far, or nowhere yet.
fn find_present<W>(desc: &AnimeGraphDesc<W>, root: usize, steps: &Vec<PlanStep>, name: &String) -> (r: Option<
    Option<usize>,
>)
    requires
        root < desc.nodes@.len(),
        forall|s: int| 0 <= s < steps@.len() ==> #[trigger] steps@[s].node < desc.nodes@.len(),
    ensures
        r is None ==> name@ != node_name(*desc, root as int) && forall|s: int|
            0 <= s < steps@.len() ==> node_name(*desc, #[trigger] steps@[s].node as int) != name@,
        r == Some(None::<usize>) ==> name@ == node_name(*desc, root as int),
        r matches Some(Some(t)) ==> t < steps@.len() && node_name(*desc, steps@[t as int].node as int)
            == name@ && name@ != node_name(*desc, root as int),
{
    if desc.nodes[root].0 == *name {
        return Some(None);
    }
    let mut s: usize = 0;
    while s < steps.len()
        invariant
            s <= steps@.len(),
            root < desc.nodes@.len(),
            name@ != node_name(*desc, root as int),
            forall|s: int| 0 <= s < steps@.len() ==> #[trigger] steps@[s].node < desc.nodes@.len(),
            forall|t: int| 0 <= t < s ==> node_name(*desc, #[trigger] steps@[t].node as int) != name@,
        decreases steps.len() - s,
    {
        if desc.nodes[steps[s].node].0 == *name {
            return Some(Some(s));
        }
        s = s + 1;
    }
    None
}

/// How many entries are `false`.
pub open spec fn count_false(s: Seq<bool>) -> nat
    decreases s.len(),
{
    if s.len() == 0 {
        0
    } else {
        (if s.last() {
            0nat
        } else {
            1nat
        }) + count_false(s.drop_last())
    }
}

proof fn lemma_count_false_set(s: Seq<bool>, k: int)
    requires
        0 <= k < s.len(),
        !s[k],
    ensures
        count_false(s.update(k, true)) + 1 == count_false(s),
    decreases s.len(),
{
    let u = s.update(k, true);
    if k == s.len() - 1 {
        assert(u.drop_last() =~= s.drop_last());
    } else {
        assert(u.drop_last() =~= s.drop_last().update(k, true));
        lemma_count_false_set(s.drop_last(), k);
    }
}

} // verus!

verus! {

/// Node `i` is added in a pass before `p`, or in pass `p` before position `lim`.
spec fn in_prefix<W>(d: AnimeGraphDesc<W>, clips: Seq<Seq<char>>, i: int, p: nat, lim: int) -> bool {
    added(d, clips, i) && (round(d, clips, i) < p || (round(d, clips, i) == p && i < lim))
}

/// The position in the list up to which the current pass has gone.
spec fn lim_of(cands: Seq<(usize, usize)>, c: int, n: int) -> int {
    if c < cands.len() {
        cands[c].0 as int
    } else {
        n
    }
}

/// Plans the construction of the graph that `desc` describes, given the
/// names of the clips that can be played.
///
/// Fails when no node is a root, when there are more than 64 mask groups,
/// and when a node that would be added lists a mask group of index 64 or
/// more; in the last case the error names the first such node in the order
/// of construction.
pub fn plan_graph<W>(desc: &AnimeGraphDesc<W>, clips: &Vec<String>) -> (r: Result<GraphPlan, PlanError>)
    requires
        desc.names_distinct(),
    ensures
        r == Err::<GraphPlan, PlanError>(PlanError::NoRoot) <==> root_pos(*desc) == -1,
        r == Err::<GraphPlan, PlanError>(PlanError::TooManyMaskGroups) <==> root_pos(*desc) != -1
            && desc.mask_groups.0@.len() > 64,
        r is Ok <==> root_pos(*desc) != -1 && desc.mask_groups.0@.len() <= 64 && !(exists|i: int|
            #[trigger] attached(*desc, clip_names(clips@), i) && mask_out_of_range(
                *desc,
                clip_names(clips@),
                i,
            )),
        r matches Err(PlanError::MaskGroupOutOfRange { node }) ==> {
            &&& root_pos(*desc) != -1
            &&& desc.mask_groups.0@.len() <= 64
            &&& attached(*desc, clip_names(clips@), node as int)
            &&& mask_out_of_range(*desc, clip_names(clips@), node as int)
            &&& forall|k: int|
                #[trigger] attached(*desc, clip_names(clips@), k) && mask_out_of_range(
                    *desc,
                    clip_names(clips@),
                    k,
                ) && k != node ==> !comes_before(*desc, clip_names(clips@), k, node as int)
        },
        r matches Ok(plan) ==> is_plan_of(plan, *desc, clip_names(clips@)),
{
    let ghost d = *desc;
    let ghost cl = clip_names(clips@);
    let (cands, root_opt) = collect_candidates(desc);
    let root = match root_opt {
        None => {
            return Err(PlanError::NoRoot);
        },
        Some(x) => x,
    };
    if desc.mask_groups.0.len() > 64 {
        return Err(PlanError::TooManyMaskGroups);
    }
    let ghost n = d.nodes@.len() as int;
    let ghost rn = node_name(d, root as int);
    let ghost cn = cands@;
    let ghost len = cands@.len();
    let mut processed: Vec<bool> = Vec::new();
    while processed.len() < cands.len()
        invariant
            processed@.len() <= cands@.len(),
            forall|c: int| 0 <= c < processed@.len() ==> !#[trigger] processed@[c],
        decreases cands.len() - processed.len(),
    {
        processed.push(false);
    }
    let mut steps: Vec<PlanStep> = Vec::new();
    let ghost mut p: nat = 1;
    proof {
        assert forall|c: int| 0 <= c < len implies (processed@[c] <==> attached(d, cl, cn[c].0 as int)
            && round(d, cl, cn[c].0 as int) < p) by {
            if attached(d, cl, cn[c].0 as int) {
                lemma_attached_unfold(d, cl, cn[c].0 as int);
            }
        }
        assert forall|i: int| #[trigger] attached(d, cl, i) implies round(d, cl, i) >= p by {
            lemma_attached_unfold(d, cl, i);
        }
    }
    loop
        invariant
            d == *desc,
            cl == clip_names(clips@),
            d.names_distinct(),
            d.mask_groups.0@.len() <= 64,
            n == d.nodes@.len(),
            root == root_pos(d),
            0 <= root < n,
            is_root_node(d, root as int),
            rn == node_name(d, root as int),
            cn == cands@,
            len == cands@.len(),
            processed@.len() == len,
            p >= 1,
            forall|c: int|
                0 <= c < len ==> {
                    let (i, e) = #[trigger] cn[c];
                    &&& is_candidate(d, i as int)
                    &&& e < d.edges@.len()
                    &&& parent_of(d, i as int) == Some(d.edges@[e as int].dest@)
                },
            forall|c1: int, c2: int| 0 <= c1 < c2 < len ==> #[trigger] cn[c1].0 < #[trigger] cn[c2].0,
            forall|i: int| #[trigger] is_candidate(d, i) ==> exists|c: int| 0 <= c < len && #[trigger] cn[c].0 == i,
            forall|c: int|
                0 <= c < len ==> (#[trigger] processed@[c] <==> attached(d, cl, cn[c].0 as int) && round(
                    d,
                    cl,
                    cn[c].0 as int,
                ) < p),
            forall|s: int|
                0 <= s < steps@.len() ==> {
                    let i = #[trigger] steps@[s].node as int;
                    &&& 0 <= i < n
                    &&& in_prefix(d, cl, i, p, 0)
                    &&& step_parent_ok(d, steps@, root as int, s)
                    &&& step_mask_ok(d, i, steps@[s].mask)
                },
            forall|i: int|
                0 <= i < n && #[trigger] in_prefix(d, cl, i, p, 0) ==> exists|s: int|
                    0 <= s < steps@.len() && #[trigger] steps@[s].node == i,
            forall|s: int, t: int|
                0 <= s < t < steps@.len() ==> comes_before(d, cl, #[trigger] steps@[s].node as int, #[trigger] steps@[t].node as int),
            forall|i: int|
                #[trigger] attached(d, cl, i) && mask_out_of_range(d, cl, i) ==> round(d, cl, i) >= p,
        decreases count_false(processed@),
    {
        let ghost steps_start = steps@;
        let ghost count_start = count_false(processed@);
        let mut cnt: usize = 0;
        let mut c: usize = 0;
        proof {
            assert forall|i: int| #[trigger] is_candidate(d, i) implies lim_of(cn, 0, n) <= i by {
                let c2 = choose|c2: int| 0 <= c2 < len && #[trigger] cn[c2].0 == i;
                if c2 > 0 {
                    assert(cn[0].0 < cn[c2].0);
                }
            }
            assert forall|i: int|
                0 <= i < n && #[trigger] in_prefix(d, cl, i, p, lim_of(cn, 0, n)) implies exists|s: int|
                    0 <= s < steps@.len() && #[trigger] steps@[s].node == i by {
                if !in_prefix(d, cl, i, p, 0) {
                    lemma_attached_unfold(d, cl, i);
                }
            }
            assert forall|i: int|
                #[trigger] attached(d, cl, i) && mask_out_of_range(d, cl, i) implies !(round(d, cl, i) < p || (
                round(d, cl, i) == p && i < lim_of(cn, 0, n))) by {
                lemma_attached_unfold(d, cl, i);
            }
        }
        while c < cands.len()
            invariant
                d == *desc,
                cl == clip_names(clips@),
                d.names_distinct(),
                d.mask_groups.0@.len() <= 64,
                n == d.nodes@.len(),
                root == root_pos(d),
                0 <= root < n,
                is_root_node(d, root as int),
                rn == node_name(d, root as int),
                cn == cands@,
                len == cands@.len(),
                processed@.len() == len,
                c <= len,
                p >= 1,
                forall|c: int|
                    0 <= c < len ==> {
                        let (i, e) = #[trigger] cn[c];
                        &&& is_candidate(d, i as int)
                        &&& e < d.edges@.len()
                        &&& parent_of(d, i as int) == Some(d.edges@[e as int].dest@)
                    },
                forall|c1: int, c2: int| 0 <= c1 < c2 < len ==> #[trigger] cn[c1].0 < #[trigger] cn[c2].0,
                forall|i: int| #[trigger] is_candidate(d, i) ==> exists|c: int| 0 <= c < len && #[trigger] cn[c].0 == i,
                forall|c2: int|
                    0 <= c2 < len ==> (#[trigger] processed@[c2] <==> attached(d, cl, cn[c2].0 as int) && (round(
                        d,
                        cl,
                        cn[c2].0 as int,
                    ) < p || (round(d, cl, cn[c2].0 as int) == p && c2 < c))),
                forall|s: int|
                    0 <= s < steps@.len() ==> {
                        let i = #[trigger] steps@[s].node as int;
                        &&& 0 <= i < n
                        &&& in_prefix(d, cl, i, p, lim_of(cn, c as int, n))
                        &&& step_parent_ok(d, steps@, root as int, s)
                        &&& step_mask_ok(d, i, steps@[s].mask)
                    },
                forall|i: int|
                    0 <= i < n && #[trigger] in_prefix(d, cl, i, p, lim_of(cn, c as int, n)) ==> exists|s: int|
                        0 <= s < steps@.len() && #[trigger] steps@[s].node == i,
                forall|s: int, t: int|
                    0 <= s < t < steps@.len() ==> comes_before(d, cl, #[trigger] steps@[s].node as int, #[trigger] steps@[t].node as int),
                forall|i: int|
                    #[trigger] attached(d, cl, i) && mask_out_of_range(d, cl, i) ==> !(round(d, cl, i) < p || (
                    round(d, cl, i) == p && i < lim_of(cn, c as int, n))),
                forall|s: int| 0 <= s < steps_start.len() ==> #[trigger] in_prefix(d, cl, steps_start[s].node as int, p, 0),
                cnt == 0 ==> steps@ == steps_start,
                count_false(processed@) + cnt <= count_start,
                cnt <= c,
            decreases len - c,
        {
            proof {
                lemma_lim_step(cn, c as int, n);
            }
            if processed[c] {
                proof {
                    let i0 = cn[c as int].0 as int;
                    assert forall|i: int|
                        0 <= i < n && #[trigger] in_prefix(d, cl, i, p, lim_of(cn, c + 1, n)) implies exists|s: int|
                            0 <= s < steps@.len() && #[trigger] steps@[s].node == i by {
                        if !in_prefix(d, cl, i, p, lim_of(cn, c as int, n)) {
                            lemma_attached_unfold(d, cl, i);
                            lemma_cands_between(cn, c as int, n, i);
                        }
                    }
                    assert forall|i: int|
                        #[trigger] attached(d, cl, i) && mask_out_of_range(d, cl, i) implies !(round(d, cl, i) < p || (
                        round(d, cl, i) == p && i < lim_of(cn, c + 1, n))) by {
                        if round(d, cl, i) == p && i < lim_of(cn, c + 1, n) {
                            lemma_attached_unfold(d, cl, i);
                            lemma_cands_between(cn, c as int, n, i);
                        }
                    }
                }
                c = c + 1;
                continue;
            }
            let (node, edge) = cands[c];
            let present = find_present(desc, root, &steps, &desc.edges[edge].dest);
            match present {
                None => {
                    proof {
                        let i = node as int;
                        let pn = d.edges@[edge as int].dest@;
                        assert(parent_of(d, i)->0 == pn);
                        if attached(d, cl, i) && round(d, cl, i) == p {
                            lemma_attached_unfold(d, cl, i);
                            let j = node_named(d, pn);
                            assert(in_prefix(d, cl, j, p, lim_of(cn, c as int, n)));
                            let t = choose|t: int| 0 <= t < steps@.len() && #[trigger] steps@[t].node == j;
                            assert(node_name(d, steps@[t].node as int) != pn);
                        }
                        assert forall|i2: int|
                            0 <= i2 < n && #[trigger] in_prefix(d, cl, i2, p, lim_of(cn, c + 1, n)) implies exists|s: int|
                                0 <= s < steps@.len() && #[trigger] steps@[s].node == i2 by {
                            if !in_prefix(d, cl, i2, p, lim_of(cn, c as int, n)) {
                                lemma_attached_unfold(d, cl, i2);
                                lemma_cands_between(cn, c as int, n, i2);
                            }
                        }
                        assert forall|i2: int|
                            #[trigger] attached(d, cl, i2) && mask_out_of_range(d, cl, i2) implies !(round(d, cl, i2) < p || (
                            round(d, cl, i2) == p && i2 < lim_of(cn, c + 1, n))) by {
                            if round(d, cl, i2) == p && i2 < lim_of(cn, c + 1, n) {
                                lemma_attached_unfold(d, cl, i2);
                                lemma_cands_between(cn, c as int, n, i2);
                            }
                        }
                    }
                    c = c + 1;
                    continue;
                },
                Some(parent) => {
                    proof {
                        let i = node as int;
                        let pn = d.edges@[edge as int].dest@;
                        assert(parent_of(d, i)->0 == pn);
                        match parent {
                            None => {
                                lemma_attached_fold(d, cl, i);
                            },
                            Some(t) => {
                                let j = steps@[t as int].node as int;
                                lemma_named(d, j);
                                assert(in_prefix(d, cl, j, p, lim_of(cn, c as int, n)));
                                lemma_attached_fold(d, cl, i);
                            },
                        }
                        assert(attached(d, cl, i) && round(d, cl, i) == p);
                    }
                    let ghost before = processed@;
                    processed.set(c, true);
                    proof {
                        lemma_count_false_set(before, c as int);
                    }
                    let checked = check_node(desc, clips, node);
                    match checked {
                        NodeCheck::OutOfRange => {
                            proof {
                                let i = node as int;
                                assert forall|k: int|
                                    #[trigger] attached(d, cl, k) && mask_out_of_range(d, cl, k) && k != i implies !comes_before(d, cl, k, i) by {
                                }
                            }
                            return Err(PlanError::MaskGroupOutOfRange { node });
                        },
                        NodeCheck::Skip => {},
                        NodeCheck::Add(mask) => {
                            let ghost old_steps = steps@;
                            steps.push(PlanStep { node, parent, mask });
                            cnt = cnt + 1;
                            proof {
                                let i = node as int;
                                let s_new = old_steps.len() as int;
                                assert(steps@[s_new].node == node);
                                assert forall|s: int|
                                    0 <= s < steps@.len() implies {
                                        let i2 = #[trigger] steps@[s].node as int;
                                        &&& 0 <= i2 < n
                                        &&& in_prefix(d, cl, i2, p, lim_of(cn, c + 1, n))
                                        &&& step_parent_ok(d, steps@, root as int, s)
                                        &&& step_mask_ok(d, i2, steps@[s].mask)
                                    } by {
                                    if s < s_new {
                                        assert(steps@[s] == old_steps[s]);
                                        assert(in_prefix(d, cl, old_steps[s].node as int, p, lim_of(cn, c as int, n)));
                                        assert(step_parent_ok(d, old_steps, root as int, s));
                                        match steps@[s].parent {
                                            None => {},
                                            Some(t) => {
                                                assert(steps@[t as int] == old_steps[t as int]);
                                            },
                                        }
                                    } else {
                                        match parent {
                                            None => {},
                                            Some(t) => {
                                                assert(steps@[t as int] == old_steps[t as int]);
                                            },
                                        }
                                    }
                                }
                                assert forall|i2: int|
                                    0 <= i2 < n && #[trigger] in_prefix(d, cl, i2, p, lim_of(cn, c + 1, n)) implies exists|s: int|
                                        0 <= s < steps@.len() && #[trigger] steps@[s].node == i2 by {
                                    if !in_prefix(d, cl, i2, p, lim_of(cn, c as int, n)) {
                                        lemma_attached_unfold(d, cl, i2);
                                        lemma_cands_between(cn, c as int, n, i2);
                                        assert(steps@[s_new].node == i2);
                                    } else {
                                        let s = choose|s: int| 0 <= s < old_steps.len() && #[trigger] old_steps[s].node == i2;
                                        assert(steps@[s].node == i2);
                                    }
                                }
                                assert forall|s: int, t: int|
                                    0 <= s < t < steps@.len() implies comes_before(d, cl, #[trigger] steps@[s].node as int, #[trigger] steps@[t].node as int) by {
                                    if t == s_new {
                                        assert(in_prefix(d, cl, old_steps[s].node as int, p, lim_of(cn, c as int, n)));
                                    } else {
                                        assert(steps@[s] == old_steps[s] && steps@[t] == old_steps[t]);
                                    }
                                }
                            }
                        },
                    }
                    proof {
                        assert forall|i2: int|
                            0 <= i2 < n && #[trigger] in_prefix(d, cl, i2, p, lim_of(cn, c + 1, n)) implies exists|s: int|
                                0 <= s < steps@.len() && #[trigger] steps@[s].node == i2 by {
                            if !in_prefix(d, cl, i2, p, lim_of(cn, c as int, n)) {
                                lemma_attached_unfold(d, cl, i2);
                                lemma_cands_between(cn, c as int, n, i2);
                            }
                        }
                        assert forall|i2: int|
                            #[trigger] attached(d, cl, i2) && mask_out_of_range(d, cl, i2) implies !(round(d, cl, i2) < p || (
                            round(d, cl, i2) == p && i2 < lim_of(cn, c + 1, n))) by {
                            if round(d, cl, i2) == p && i2 < lim_of(cn, c + 1, n) {
                                lemma_attached_unfold(d, cl, i2);
                                lemma_cands_between(cn, c as int, n, i2);
                            }
                        }
                    }
                    c = c + 1;
                },
            }
        }
        if cnt == 0 {
            proof {
                assert forall|i: int| 0 <= i < n && #[trigger] added(d, cl, i) implies round(d, cl, i) < p by {
                    if round(d, cl, i) >= p {
                        lemma_every_pass_below(d, cl, i, p);
                        let k = choose|k: int| 0 <= k < n && #[trigger] added(d, cl, k) && round(d, cl, k) == p;
                        assert(in_prefix(d, cl, k, p, lim_of(cn, c as int, n)));
                        let t = choose|t: int| 0 <= t < steps@.len() && #[trigger] steps@[t].node == k;
                        assert(in_prefix(d, cl, steps_start[t].node as int, p, 0));
                    }
                }
                assert(lim_of(cn, c as int, n) == n);
                assert forall|i: int| #[trigger] attached(d, cl, i) && mask_out_of_range(d, cl, i) implies false by {
                    lemma_attached_unfold(d, cl, i);
                    assert(round(d, cl, i) > p);
                    let j = node_named(d, parent_of(d, i)->0);
                    lemma_attached_unfold(d, cl, j);
                    assert(added(d, cl, j));
                    assert(round(d, cl, j) < p);
                }
                assert forall|i: int| 0 <= i < n && #[trigger] added(d, cl, i) implies exists|s: int|
                    0 <= s < steps@.len() && #[trigger] steps@[s].node == i by {
                    assert(in_prefix(d, cl, i, p, lim_of(cn, c as int, n)));
                }
            }
            return Ok(GraphPlan { root, steps });
        }
        proof {
            assert forall|c2: int|
                0 <= c2 < len implies (#[trigger] processed@[c2] <==> attached(d, cl, cn[c2].0 as int) && round(
                    d,
                    cl,
                    cn[c2].0 as int,
                ) < p + 1) by {}
            assert forall|i: int|
                0 <= i < n implies (#[trigger] in_prefix(d, cl, i, (p + 1) as nat, 0) <==> in_prefix(d, cl, i, p, lim_of(cn, c as int, n))) by {}
            assert forall|i: int|
                #[trigger] attached(d, cl, i) && mask_out_of_range(d, cl, i) implies round(d, cl, i) >= p + 1 by {
                lemma_attached_unfold(d, cl, i);
            }
            p = (p + 1) as nat;
            assert forall|i: int| #[trigger] attached(d, cl, i) && mask_out_of_range(d, cl, i) implies round(d, cl, i) >= p by {}
        }
    }
}

/// Consecutive positions of the pass: the list order bound only grows.
proof fn lemma_lim_step(cn: Seq<(usize, usize)>, c: int, n: int)
    requires
        0 <= c < cn.len(),
        forall|c2: int| 0 <= c2 < cn.len() ==> #[trigger] cn[c2].0 < n,
        forall|c1: int, c2: int| 0 <= c1 < c2 < cn.len() ==> #[trigger] cn[c1].0 < #[trigger] cn[c2].0,
    ensures
        lim_of(cn, c, n) < lim_of(cn, c + 1, n),
        lim_of(cn, c, n) == cn[c].0,
{
}

/// A listed candidate between two consecutive bounds is the one at the first.
proof fn lemma_cands_between(cn: Seq<(usize, usize)>, c: int, n: int, i: int)
    requires
        0 <= c < cn.len(),
        forall|c2: int| 0 <= c2 < cn.len() ==> #[trigger] cn[c2].0 < n,
        forall|c1: int, c2: int| 0 <= c1 < c2 < cn.len() ==> #[trigger] cn[c1].0 < #[trigger] cn[c2].0,
        exists|c2: int| 0 <= c2 < cn.len() && #[trigger] cn[c2].0 == i,
        lim_of(cn, c, n) <= i < lim_of(cn, c + 1, n),
    ensures
        i == cn[c].0,
{
    let c2 = choose|c2: int| 0 <= c2 < cn.len() && #[trigger] cn[c2].0 == i;
    if c2 < c {
        assert(cn[c2].0 < cn[c].0);
    } else if c2 > c {
        assert(cn[c + 1].0 <= cn[c2].0);
    }
}

} // verus!

verus! {

/// When there is a root, it is a root node of the description.
pub proof fn lemma_root_pos_is_root<W>(d: AnimeGraphDesc<W>)
    requires
        root_pos(d) != -1,
    ensures
        0 <= root_pos(d) < d.nodes@.len(),
        is_root_node(d, root_pos(d)),
{
    lemma_last_root_below(d, d.nodes@.len() as int);
}

proof fn lemma_last_root_below<W>(d: AnimeGraphDesc<W>, n: int)
    ensures
        -1 <= last_root_below(d, n) < n || (n <= 0 && last_root_below(d, n) == -1),
        last_root_below(d, n) != -1 ==> 0 <= last_root_below(d, n) && is_root_node(d, last_root_below(d, n)),
    decreases n,
{
    if n > 0 {
        lemma_last_root_below(d, n - 1);
    }
}

} // verus!
