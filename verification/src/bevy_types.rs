//! The Bevy types and calls that the library's logic works with, and what
//! the library takes as given about them.
use vstd::prelude::*;

use bevy::animation::graph::AnimationNodeIndex;
use bevy::animation::AnimationTargetId;
use bevy::ecs::name::Name;
use bevy::platform::collections::HashMap;
use bevy::platform::hash::FixedHasher;
use petgraph::graph::NodeIndex;

verus! {

/// Bevy's hash map, which hashes with a fixed seed.
#[verifier::external_type_specification]
#[verifier::external_body]
#[verifier::reject_recursive_types(K)]
#[verifier::reject_recursive_types(V)]
#[verifier::reject_recursive_types(S)]
pub struct ExHashMap<K, V, S>(HashMap<K, V, S>);

/// The fixed hasher of Bevy's hash maps.
#[verifier::external_type_specification]
#[verifier::external_body]
pub struct ExFixedHasher(FixedHasher);

/// The index of a node in a graph (an animation graph's nodes use `u32`).
#[verifier::external_type_specification]
#[verifier::external_body]
#[verifier::reject_recursive_types(Ix)]
pub struct ExNodeIndex<Ix>(NodeIndex<Ix>);

/// The identifier of an animation target (a bone), derived from its path.
#[verifier::external_type_specification]
#[verifier::external_body]
pub struct ExAnimationTargetId(AnimationTargetId);

// ---------------------------------------------------------------------------
// Graph node indices
// ---------------------------------------------------------------------------

/// The number that a graph node index holds (what `NodeIndex::index` gives).
pub uninterp spec fn node_index_value(n: AnimationNodeIndex) -> u32;

/// `NodeIndex::index`: the number of a graph node index. For `u32` indices
/// the source returns the stored `u32` as a `usize`.
#[verifier::external_body]
pub(crate) fn node_index_number(n: AnimationNodeIndex) -> (r: u32)
    ensures
        r == node_index_value(n),
{
    n.index() as u32
}

/// What a map from names to graph node indices holds: each name with the
/// number of its node index.
pub uninterp spec fn node_index_map(m: HashMap<String, AnimationNodeIndex>) -> Map<Seq<char>, u32>;

/// `HashMap::new`: an empty map from names to graph node indices.
#[verifier::external_body]
pub(crate) fn node_index_map_new() -> (r: HashMap<String, AnimationNodeIndex>)
    ensures
        node_index_map(r).dom().is_empty(),
{
    HashMap::new()
}

/// `HashMap::insert`: maps `key` to `value`, replacing what `key` mapped to.
/// Keys are compared as strings, which is how `String` hashes and compares.
#[verifier::external_body]
pub(crate) fn node_index_map_insert(m: &mut HashMap<String, AnimationNodeIndex>, key: String, value: AnimationNodeIndex)
    ensures
        node_index_map(*final(m)) == node_index_map(*old(m)).insert(key@, node_index_value(value)),
{
    m.insert(key, value);
}

/// `HashMap::get`: the node index that `key` maps to, if any.
#[verifier::external_body]
pub(crate) fn node_index_map_get(m: &HashMap<String, AnimationNodeIndex>, key: &String) -> (r: Option<
    AnimationNodeIndex,
>)
    ensures
        r is Some <==> node_index_map(*m).contains_key(key@),
        r matches Some(v) ==> node_index_value(v) == node_index_map(*m)[key@],
{
    m.get(key.as_str()).copied()
}

// ---------------------------------------------------------------------------
// Animation targets
// ---------------------------------------------------------------------------

/// The 128 bits of an animation target identifier (its UUID, `as_u128`).
pub uninterp spec fn target_id_value(t: AnimationTargetId) -> u128;

/// The identifier that `AnimationTargetId::from_names` derives from a path
/// of names: a hash of the names, each with its length, in order. The
/// lengths enter the hash as `usize` bytes, so the identifier also depends
/// on the width of `usize` in bits, `word_bits`.
pub uninterp spec fn target_id_of_path(path: Seq<Seq<char>>, word_bits: u32) -> u128;

/// The names of a path, as strings.
pub open spec fn path_names(path: Seq<String>) -> Seq<Seq<char>> {
    path.map_values(|s: String| s@)
}

/// `AnimationTargetId::from_names` on the names of `path`: the result is
/// determined by the path's names (and the machine's `usize` width) alone,
/// and is named `target_id_of_path`.
#[verifier::external_body]
pub(crate) fn target_id_from_path(path: &Vec<String>) -> (r: AnimationTargetId)
    ensures
        target_id_value(r) == target_id_of_path(path_names(path@), usize::BITS),
{
    let names: Vec<Name> = path.iter().map(|s| Name::new(s.clone())).collect();
    AnimationTargetId::from_names(names.iter())
}

/// What a map from bone names to animation targets holds: each name with
/// the bits of its target.
pub uninterp spec fn target_map(m: HashMap<String, AnimationTargetId>) -> Map<Seq<char>, u128>;

/// `HashMap::new`: an empty map from bone names to animation targets.
#[verifier::external_body]
pub(crate) fn target_map_new() -> (r: HashMap<String, AnimationTargetId>)
    ensures
        target_map(r).dom().is_empty(),
{
    HashMap::new()
}

/// `HashMap::insert`: maps `key` to `value`, replacing what `key` mapped to.
#[verifier::external_body]
pub(crate) fn target_map_insert(m: &mut HashMap<String, AnimationTargetId>, key: String, value: AnimationTargetId)
    ensures
        target_map(*final(m)) == target_map(*old(m)).insert(key@, target_id_value(value)),
{
    m.insert(key, value);
}

/// `HashMap::get`: the animation target that `key` maps to, if any.
#[verifier::external_body]
pub(crate) fn target_map_get(m: &HashMap<String, AnimationTargetId>, key: &String) -> (r: Option<
    AnimationTargetId,
>)
    ensures
        r is Some <==> target_map(*m).contains_key(key@),
        r matches Some(v) ==> target_id_value(v) == target_map(*m)[key@],
{
    m.get(key.as_str()).copied()
}

} // verus!
