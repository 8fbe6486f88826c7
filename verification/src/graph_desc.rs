//! Description of an animation graph: its nodes, the edges that tie each
//! node to its parent, the mask groups of bones, and the commands that drive
//! a built graph.
//!
//! Blend weights are carried as an opaque type parameter `W`: the graph
//! logic never reads them, it only hands them on to whoever builds the graph.
use vstd::prelude::*;

verus! {

/// Index of a mask group; the group `n` is bit `n` of an animation mask.
#[derive(Debug, Clone, Copy, PartialEq, Eq, Hash, Default)]
pub struct MaskGroupIdx(u32);

impl View for MaskGroupIdx {
    type V = u32;

    closed spec fn view(&self) -> u32 {
        self.0
    }
}

impl MaskGroupIdx {
    /// The mask group with the given index.
    pub fn new(idx: u32) -> (r: Self)
        ensures
            r@ == idx,
    {
        Self(idx)
    }

    /// The index of this mask group.
    pub fn idx(&self) -> (r: u32)
        ensures
            r == self@,
    {
        self.0
    }

    /// The bit of this group in an animation mask. An animation mask has
    /// 64 bits, so the index must be below 64.
    pub fn bit(&self) -> (r: u64)
        requires
            self@ < 64,
        ensures
            r == 1u64 << self@,
    {
        1u64 << self.0
    }
}

/// The bones of one mask group, by name.
#[derive(Debug, Clone, Default)]
pub struct MaskGroup {
    /// The bone names of the mask group; their paths come with the glTF scene.
    pub targets: Vec<String>,
}

/// The mask groups of a graph; the position of a group is its index.
#[derive(Debug, Clone, Default)]
pub struct MaskGroups(pub Vec<MaskGroup>);

/// An edge from a node (`src`) to its parent (`dest`).
#[derive(Debug, Clone, Default)]
pub struct EdgeDesc {
    pub src: String,
    pub dest: String,
}

/// A node that plays an animation clip.
#[derive(Debug, Clone, Default)]
pub struct ClipNodeDesc<W> {
    pub clip: String,
    pub weight: W,
    pub mask: Vec<MaskGroupIdx>,
}

/// A node that blends its children.
#[derive(Debug, Clone, Default)]
pub struct BlendNodeDesc<W> {
    pub weight: W,
    pub mask: Vec<MaskGroupIdx>,
}

/// A node that adds its children together.
#[derive(Debug, Clone, Default)]
pub struct AdditiveBlendNodeDesc<W> {
    pub weight: W,
    pub mask: Vec<MaskGroupIdx>,
}

/// A node of the graph description.
#[derive(Debug, Clone)]
pub enum NodeDesc<W> {
    Root,
    Clip(ClipNodeDesc<W>),
    Blend(BlendNodeDesc<W>),
    AdditiveBlend(AdditiveBlendNodeDesc<W>),
}

/// A whole graph description. `nodes` pairs each node name with its
/// description; a name stands for one node only (see `names_distinct`).
#[derive(Debug, Clone)]
pub struct AnimeGraphDesc<W> {
    pub nodes: Vec<(String, NodeDesc<W>)>,
    pub edges: Vec<EdgeDesc>,
    pub mask_groups: MaskGroups,
}

impl<W> AnimeGraphDesc<W> {
    /// No two nodes carry the same name.
    pub open spec fn names_distinct(&self) -> bool {
        forall|i: int, j: int|
            0 <= i < self.nodes@.len() && 0 <= j < self.nodes@.len() && i != j
                ==> #[trigger] self.nodes@[i].0@ != #[trigger] self.nodes@[j].0@
    }
}

/// A command on a built graph, addressed to a node by name.
#[derive(Debug, Clone)]
pub enum AnimeGraphCommand<W> {
    PlayRepeat(String),
    StopPlay(String),
    SetWeight(String, W),
}

} // verus!
