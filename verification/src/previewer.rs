//! What the previewer reports about a loaded glTF file.
use vstd::prelude::*;

use crate::animation::{bone_full_paths, bone_count, full_bone_path, lemma_bone_count_mono, SceneArmatureBonePaths};
use crate::bevy_types::path_names;
use crate::text::{concat, push_decimal, decimal};

verus! {

/// The name shown for a scene: its own, or `Unnamed Scene`.
pub open spec fn scene_label(name: Option<String>) -> Seq<char> {
    match name {
        Some(n) => n@,
        None => "Unnamed Scene"@,
    }
}

/// The name shown for the animation at position `idx`: its own, or
/// `Animation ` followed by the position.
pub open spec fn animation_label(name: Option<String>, idx: nat) -> Seq<char> {
    match name {
        Some(n) => n@,
        None => "Animation "@ + decimal(idx),
    }
}

/// The names of the scenes, in the order of the file; a scene without a
/// name is called `Unnamed Scene`.
pub fn scene_names(names: &Vec<Option<String>>) -> (r: Vec<String>)
    ensures
        r@.len() == names@.len(),
        forall|i: int| 0 <= i < names@.len() ==> #[trigger] r@[i]@ == scene_label(names@[i]),
{
    let mut r: Vec<String> = Vec::new();
    let mut i: usize = 0;
    while i < names.len()
        invariant
            i <= names@.len(),
            r@.len() == i,
            forall|k: int| 0 <= k < i ==> #[trigger] r@[k]@ == scene_label(names@[k]),
        decreases names.len() - i,
    {
        let name = match &names[i] {
            Some(n) => n.clone(),
            None => "Unnamed Scene".to_owned(),
        };
        r.push(name);
        i = i + 1;
    }
    r
}

/// The names of the animations, in the order of the file; an animation
/// without a name is called `Animation` and its position.
pub fn animation_names(names: &Vec<Option<String>>) -> (r: Vec<String>)
    ensures
        r@.len() == names@.len(),
        forall|i: int| 0 <= i < names@.len() ==> #[trigger] r@[i]@ == animation_label(names@[i], i as nat),
{
    let mut r: Vec<String> = Vec::new();
    let mut i: usize = 0;
    while i < names.len()
        invariant
            i <= names@.len(),
            r@.len() == i,
            forall|k: int| 0 <= k < i ==> #[trigger] r@[k]@ == animation_label(names@[k], k as nat),
        decreases names.len() - i,
    {
        let name = match &names[i] {
            Some(n) => n.clone(),
            None => {
                let mut s = "Animation ".to_owned();
                push_decimal(&mut s, i);
                s
            },
        };
        r.push(name);
        i = i + 1;
    }
    r
}

/// A bone of the loaded scene with its full path.
#[derive(Debug, Clone)]
pub struct BoneInfo {
    pub name: String,
    pub path: Vec<String>,
}

/// The bones of the loaded scene, armature by armature, each with its path
/// from the armature.
pub fn bone_infos(bones: &SceneArmatureBonePaths) -> (r: Vec<BoneInfo>)
    ensures
        r@.len() == bone_count(bones.armature_bone_paths@, bones.armature_bone_paths@.len() as int),
        forall|a: int, j: int|
            0 <= a < bones.armature_bone_paths@.len() && 0 <= j < bones.armature_bone_paths@[a].bone_paths@.len() ==> {
                let b = #[trigger] r@[bone_count(bones.armature_bone_paths@, a) + j];
                let abp = bones.armature_bone_paths@[a];
                &&& b.name@ == abp.bone_paths@[j].0@
                &&& path_names(b.path@) == full_bone_path(abp, j)
            },
{
    let paths = bone_full_paths(bones);
    let mut r: Vec<BoneInfo> = Vec::new();
    let mut k: usize = 0;
    while k < paths.len()
        invariant
            k <= paths@.len(),
            r@.len() == k,
            forall|k2: int| 0 <= k2 < k ==> #[trigger] r@[k2].name@ == paths@[k2].0@ && path_names(r@[k2].path@) == path_names(paths@[k2].1@),
        decreases paths.len() - k,
    {
        let path = clone_strings(&paths[k].1);
        r.push(BoneInfo { name: paths[k].0.clone(), path });
        k = k + 1;
    }
    proof {
        assert forall|a: int, j: int|
            0 <= a < bones.armature_bone_paths@.len() && 0 <= j < bones.armature_bone_paths@[a].bone_paths@.len() implies {
                let b = #[trigger] r@[bone_count(bones.armature_bone_paths@, a) + j];
                let abp = bones.armature_bone_paths@[a];
                &&& b.name@ == abp.bone_paths@[j].0@
                &&& path_names(b.path@) == full_bone_path(abp, j)
            } by {
            let abps = bones.armature_bone_paths@;
            lemma_bone_count_mono(abps, 0, a);
            lemma_bone_count_mono(abps, a + 1, abps.len() as int);
            assert(bone_count(abps, a + 1) == bone_count(abps, a) + abps[a].bone_paths@.len());
            let k2 = bone_count(abps, a) + j;
            let e = paths@[k2];
            assert(r@[k2].name@ == paths@[k2].0@);
        }
    }
    r
}

/// A copy of a list of strings.
fn clone_strings(v: &Vec<String>) -> (r: Vec<String>)
    ensures
        path_names(r@) == path_names(v@),
{
    let mut r: Vec<String> = Vec::new();
    let mut k: usize = 0;
    while k < v.len()
        invariant
            k <= v@.len(),
            path_names(r@) == path_names(v@.take(k as int)),
        decreases v.len() - k,
    {
        let ghost before = r@;
        r.push(v[k].clone());
        proof {
            assert(path_names(r@) =~= path_names(before).push(v@[k as int]@));
            assert(path_names(v@.take(k + 1)) =~= path_names(v@.take(k as int)).push(v@[k as int]@));
        }
        k = k + 1;
    }
    proof {
        assert(v@.take(v@.len() as int) =~= v@);
    }
    r
}

} // verus!
