//! The editor's main window: the scene files it offers and the icons of the
//! hierarchy.

use vstd::prelude::*;
use crate::text::{
    chars_of, chars_lt, ends_with, ends_with_at, is_key_order, lemma_sorted_texts_ascend,
    lemma_stable_sorted_same_members, sorted_key_order, stable_sorted_by_key, views_of,
};

verus! {

broadcast use vstd::string::group_string_axioms;

/// The editor window.
pub struct EditorUI;

/// The project browser panel.
pub struct AssetBrowser;

/// A tag that marks an entity of a special kind.
#[derive(Debug, Clone, Copy, PartialEq, Eq, Structural)]
pub enum EntityTag {
    Player,
    Item,
}

/// The components of an entity that decide its icon, and its tag.
#[derive(Debug, Clone, Copy, PartialEq, Eq, Structural)]
pub struct EntityTraits {
    pub tag: Option<EntityTag>,
    pub has_sprite: bool,
    pub has_collider: bool,
    pub has_velocity: bool,
    pub has_script: bool,
}

/// The icon of an entity: its tag decides first, then, in this order, a
/// script, velocity with a collider, a sprite with a collider, a sprite, a
/// collider; an entity with none of these is an empty object.
pub open spec fn entity_icon_text(e: EntityTraits) -> Seq<char> {
    match e.tag {
        Some(EntityTag::Player) => "🎮"@,
        Some(EntityTag::Item) => "💎"@,
        None => if e.has_script {
            "📜"@
        } else if e.has_velocity && e.has_collider {
            "🏃"@
        } else if e.has_sprite && e.has_collider {
            "📦"@
        } else if e.has_sprite {
            "🖼️"@
        } else if e.has_collider {
            "⬜"@
        } else {
            "📍"@
        },
    }
}

/// The extension of a scene file.
pub open spec fn scene_ext() -> Seq<char> {
    seq!['.', 's', 'c', 'e', 'n', 'e']
}

/// The paths that end with `.scene`, in their order.
pub open spec fn scene_paths(paths: Seq<Seq<char>>) -> Seq<Seq<char>>
    decreases paths.len(),
{
    if paths.len() == 0 {
        Seq::empty()
    } else {
        let rest = scene_paths(paths.drop_last());
        if ends_with(paths.last(), scene_ext()) {
            rest.push(paths.last())
        } else {
            rest
        }
    }
}

/// Whether a path is that of a scene file: it ends with `.scene`.
pub open spec fn is_scene_path() -> spec_fn(Seq<char>) -> bool {
    |p: Seq<char>| ends_with(p, scene_ext())
}

/// The scene paths among some paths are those that end with `.scene`, every
/// one of them and no other, in their order.
pub proof fn lemma_scene_paths_are_the_scene_files(paths: Seq<Seq<char>>)
    ensures
        scene_paths(paths) == paths.filter(is_scene_path()),
        forall|x: Seq<char>|
            #[trigger] scene_paths(paths).contains(x) <==> (paths.contains(x) && ends_with(
                x,
                scene_ext(),
            )),
    decreases paths.len(),
{
    reveal(Seq::filter);
    if paths.len() > 0 {
        lemma_scene_paths_are_the_scene_files(paths.drop_last());
    }
    let p = is_scene_path();
    paths.filter_lemma(p);
    assert forall|x: Seq<char>|
        #[trigger] scene_paths(paths).contains(x) <==> (paths.contains(x) && ends_with(
            x,
            scene_ext(),
        )) by {
        if paths.filter(p).contains(x) {
            paths.lemma_filter_contains_rev(p, x);
            let k = choose|k: int| 0 <= k < paths.filter(p).len() && paths.filter(p)[k] == x;
            assert(p(paths.filter(p)[k]));
        }
        if paths.contains(x) && ends_with(x, scene_ext()) {
            let k = choose|k: int| 0 <= k < paths.len() && paths[k] == x;
            assert(p(paths[k]));
        }
    }
}

/// The scene files offered for some paths are the paths that end with
/// `.scene`, every one of them and no other, as many as there are such
/// paths, in ascending order.
pub proof fn lemma_scene_files_offered(paths: Seq<Seq<char>>, offered: Seq<Seq<char>>)
    requires
        stable_sorted_by_key(scene_paths(paths), scene_paths(paths), offered),
        paths.len() <= usize::MAX,
    ensures
        offered.len() == paths.filter(is_scene_path()).len(),
        forall|x: Seq<char>|
            #[trigger] offered.contains(x) <==> (paths.contains(x) && ends_with(x, scene_ext())),
        forall|i: int, j: int|
            0 <= i < j < offered.len() ==> chars_lt(#[trigger] offered[i], #[trigger] offered[j])
                || offered[i] == offered[j],
{
    lemma_scene_paths_are_the_scene_files(paths);
    paths.filter_lemma(is_scene_path());
    lemma_stable_sorted_same_members(scene_paths(paths), scene_paths(paths), offered);
    lemma_sorted_texts_ascend(scene_paths(paths), offered);
    assert forall|x: Seq<char>|
        #[trigger] offered.contains(x) <==> (paths.contains(x) && ends_with(x, scene_ext())) by {
        assert(offered.contains(x) <==> scene_paths(paths).contains(x));
    }
}

impl EditorUI {
    /// The scene files among the paths of the files in a project's scene
    /// folder (relative to the project): those ending with `.scene`, sorted.
    pub fn get_scene_files(paths: &Vec<String>) -> (scene_files: Vec<String>)
        ensures
            stable_sorted_by_key(
                scene_paths(views_of(paths@)),
                scene_paths(views_of(paths@)),
                views_of(scene_files@),
            ),
            forall|x: Seq<char>|
                #[trigger] views_of(scene_files@).contains(x) <==> (views_of(paths@).contains(x)
                    && ends_with(x, scene_ext())),
    {
        let ext = chars_of(".scene");
        proof {
            reveal_strlit(".scene");
            assert(ext@ =~= scene_ext());
        }
        let ghost pv = views_of(paths@);
        let mut found: Vec<String> = Vec::new();
        let mut i: usize = 0;
        while i < paths.len()
            invariant
                i <= paths@.len(),
                pv == views_of(paths@),
                ext@ == scene_ext(),
                views_of(found@) == scene_paths(pv.subrange(0, i as int)),
            decreases paths@.len() - i,
        {
            let p = chars_of(paths[i].as_str());
            proof {
                assert(p@.subrange(0, p@.len() as int) =~= p@);
                assert(pv.subrange(0, i + 1).drop_last() =~= pv.subrange(0, i as int));
                assert(pv.subrange(0, i + 1).last() == paths@[i as int]@);
            }
            let ghost before = found@;
            if ends_with_at(&p, p.len(), &ext) {
                found.push(paths[i].clone());
                proof {
                    assert(views_of(found@) =~= views_of(before).push(paths@[i as int]@));
                }
            }
            i += 1;
        }
        proof {
            assert(pv.subrange(0, paths@.len() as int) =~= pv);
        }
        let order = sorted_key_order(&found);
        let mut scene_files: Vec<String> = Vec::new();
        let mut k: usize = 0;
        while k < order.len()
            invariant
                is_key_order(views_of(found@), order@),
                k <= order@.len(),
                scene_files@.len() == k,
                forall|j: int| 0 <= j < k ==> #[trigger] views_of(scene_files@)[j] == views_of(found@)[order@[j] as int],
            decreases order@.len() - k,
        {
            let j = order[k];
            let ghost before = scene_files@;
            scene_files.push(found[j].clone());
            proof {
                assert forall|q: int| 0 <= q < k + 1 implies #[trigger] views_of(scene_files@)[q] == views_of(found@)[order@[q] as int] by {
                    if q < k {
                        assert(scene_files@[q] == before[q]);
                        assert(views_of(before)[q] == views_of(found@)[order@[q] as int]);
                    }
                }
            }
            k += 1;
        }
        proof {
            assert(stable_sorted_by_key(scene_paths(pv), scene_paths(pv), views_of(scene_files@)))
                by {
                assert(is_key_order(scene_paths(pv), order@));
                assert(views_of(found@) == scene_paths(pv));
            }
            lemma_scene_files_offered(pv, views_of(scene_files@));
        }
        scene_files
    }

    /// The icon the hierarchy shows for an entity.
    pub fn get_entity_icon(entity: &EntityTraits) -> (icon: &'static str)
        ensures
            icon@ == entity_icon_text(*entity),
    {
        match entity.tag {
            Some(EntityTag::Player) => {
                return "🎮";
            },
            Some(EntityTag::Item) => {
                return "💎";
            },
            None => {},
        }
        if entity.has_script {
            "📜"
        } else if entity.has_velocity && entity.has_collider {
            "🏃"
        } else if entity.has_sprite && entity.has_collider {
            "📦"
        } else if entity.has_sprite {
            "🖼️"
        } else if entity.has_collider {
            "⬜"
        } else {
            "📍"
        }
    }
}

} // verus!
