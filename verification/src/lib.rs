use vstd::prelude::*;

pub mod animation;
pub mod api;
pub mod bevy_types;
pub mod graph_desc;
pub mod graph_plan;
pub mod laws;
pub mod mask;
pub mod meshes;
pub mod previewer;
pub mod scene;
pub mod text;
pub mod trail;

verus! {

} // verus!
