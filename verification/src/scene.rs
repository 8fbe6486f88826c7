//! glTF scenes: how a scene of a glTF file is chosen, and the glTF
//! extensions that the scenes carry.
use vstd::prelude::*;

verus! {

/// Extension of a material that asks for the sandbox shader.
pub const EXTENSION_NAME_MATERIAL: &'static str = "ASHIOJIN_material_sandbox";

/// Extension of a mesh that marks it as an effect mesh.
pub const EXTENSION_NAME_MESH_FX_CONFIG: &'static str = "ASHIOJIN_mesh_fx_config";

/// Extension of an animation that lists its effect spans.
pub const EXTENSION_NAME_ACTION_FX_CONFIG: &'static str = "ASHIOJIN_action_fx_config";

/// Extension of a scene that lists the bone paths of its armatures.
pub const EXTENSION_NAME_SCENE_ARMATURE_BONE_PATHS: &'static str = "ASHIOJIN_scene_armature_bone_paths";

/// A scene of a glTF file, by name or by position.
#[derive(Debug, Clone)]
pub enum GltfSceneLabel {
    Name(String),
    Idx(usize),
}

impl GltfSceneLabel {
    /// The scene with the given name.
    pub fn from_name(name: String) -> (r: Self)
        ensures
            r == GltfSceneLabel::Name(name),
    {
        Self::Name(name)
    }

    /// The scene at the given position.
    pub fn from_idx(idx: usize) -> (r: Self)
        ensures
            r == GltfSceneLabel::Idx(idx),
    {
        Self::Idx(idx)
    }
}

/// The sandbox material extension; `P` carries its shader parameters.
#[derive(Debug, Clone, Default)]
pub struct SandboxExtension<P> {
    pub shader_type: String,
    pub param1: P,
}

impl<P> SandboxExtension<P> {
    /// Whether the material uses the sandbox shader, which is the only case
    /// in which the extension is attached to the mesh.
    pub fn is_sandbox_shader(&self) -> (r: bool)
        ensures
            r == (self.shader_type@ == "ASHIOJIN_SANDBOX"@),
    {
        self.shader_type == "ASHIOJIN_SANDBOX".to_owned()
    }
}

} // verus!
