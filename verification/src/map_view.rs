//! The maps panels: the map files of a project, the map selected, how layers
//! are listed and which colliders a clean-up removes.

use vstd::prelude::*;
use crate::map_manager::Entity;
use crate::hierarchy::{signed_decimal, signed_decimal_text};
use crate::paths::{extension_of_path, file_name_of, file_name_text, path_extension};
use crate::text::{
    contains_seq, contains_text, lemma_replace_absent, replace_all, replace_text, text_equals, views_of,
};

verus! {

broadcast use vstd::string::group_string_axioms;

/// State of the map view panel.
pub struct MapViewState {
    /// File name of the selected map.
    pub selected_map: Option<String>,
    /// Whether the layers of the selected map are listed.
    pub show_layers: bool,
}

impl Default for MapViewState {
    fn default() -> (s: Self)
        ensures
            s.selected_map is None,
            s.show_layers,
    {
        MapViewState { selected_map: None, show_layers: true }
    }
}

impl MapViewState {
    /// Selects the map file with this name.
    pub fn select_map(&mut self, file_name: String)
        ensures
            final(self).selected_map == Some(file_name),
            final(self).show_layers == old(self).show_layers,
    {
        self.selected_map = Some(file_name);
    }

    /// Whether the map file with this name is the one selected.
    pub fn is_selected(&self, file_name: &str) -> (b: bool)
        ensures
            b == (self.selected_map is Some && self.selected_map->0@ == file_name@),
    {
        match &self.selected_map {
            Some(m) => text_equals(m.as_str(), file_name),
            None => false,
        }
    }
}

/// The extension of LDtk map files.
pub open spec fn ldtk_ext() -> Seq<char> {
    "ldtk"@
}

/// The names, in their order, whose extension is `ldtk`.
pub open spec fn ldtk_names(names: Seq<Seq<char>>) -> Seq<Seq<char>>
    decreases names.len(),
{
    if names.len() == 0 {
        Seq::empty()
    } else {
        let rest = ldtk_names(names.drop_last());
        if path_extension(names.last()) == Some(ldtk_ext()) {
            rest.push(names.last())
        } else {
            rest
        }
    }
}

/// The LDtk map files among the names of the files of a levels folder, in
/// their order.
pub fn ldtk_file_names(file_names: &Vec<String>) -> (maps: Vec<String>)
    ensures
        views_of(maps@) == ldtk_names(views_of(file_names@)),
{
    let ghost names = views_of(file_names@);
    let mut maps: Vec<String> = Vec::new();
    let mut i: usize = 0;
    while i < file_names.len()
        invariant
            i <= file_names@.len(),
            names == views_of(file_names@),
            views_of(maps@) == ldtk_names(names.subrange(0, i as int)),
        decreases file_names@.len() - i,
    {
        proof {
            assert(names.subrange(0, i + 1).drop_last() =~= names.subrange(0, i as int));
            assert(names.subrange(0, i + 1).last() == file_names@[i as int]@);
        }
        let ghost before = maps@;
        let is_map = match extension_of_path(file_names[i].as_str()) {
            Some(e) => text_equals(e.as_str(), "ldtk"),
            None => false,
        };
        if is_map {
            maps.push(file_names[i].clone());
            proof {
                assert(views_of(maps@) =~= views_of(before).push(file_names@[i as int]@));
            }
        }
        i += 1;
    }
    proof {
        assert(names.subrange(0, file_names@.len() as int) =~= names);
    }
    maps
}

/// Whether a file name is that of an LDtk map: its extension is `ldtk`.
pub open spec fn is_ldtk_name() -> spec_fn(Seq<char>) -> bool {
    |n: Seq<char>| path_extension(n) == Some(ldtk_ext())
}

/// The maps listed for a folder are its file names with the extension
/// `ldtk`, every one of them and no other, in the folder's order: a name is
/// listed exactly when it is one of the folder's names and its extension is
/// `ldtk`.
pub proof fn lemma_ldtk_names_are_the_ldtk_files(names: Seq<Seq<char>>)
    ensures
        ldtk_names(names) == names.filter(is_ldtk_name()),
        forall|x: Seq<char>|
            #[trigger] ldtk_names(names).contains(x) <==> (names.contains(x) && path_extension(x)
                == Some(ldtk_ext())),
    decreases names.len(),
{
    reveal(Seq::filter);
    if names.len() > 0 {
        lemma_ldtk_names_are_the_ldtk_files(names.drop_last());
    }
    let p = is_ldtk_name();
    names.filter_lemma(p);
    assert forall|x: Seq<char>|
        #[trigger] ldtk_names(names).contains(x) <==> (names.contains(x) && path_extension(x)
            == Some(ldtk_ext())) by {
        if names.filter(p).contains(x) {
            names.lemma_filter_contains_rev(p, x);
            let k = choose|k: int| 0 <= k < names.filter(p).len() && names.filter(p)[k] == x;
            assert(p(names.filter(p)[k]));
        }
        if names.contains(x) && path_extension(x) == Some(ldtk_ext()) {
            let k = choose|k: int| 0 <= k < names.len() && names[k] == x;
            assert(p(names[k]));
        }
    }
}

/// The prefix that map loading puts before the names of layer entities.
pub open spec fn layer_name_prefix() -> Seq<char> {
    "LDTK Layer: "@
}

/// The name under which a layer is listed: its entity name without the
/// prefix that map loading adds.
pub fn layer_display_name(layer_name: &str) -> (shown: String)
    ensures
        shown@ == replace_all(layer_name@, layer_name_prefix(), Seq::empty()),
{
    proof {
        reveal_strlit("LDTK Layer: ");
        reveal_strlit("");
        assert(""@ =~= Seq::<char>::empty());
    }
    replace_text(layer_name, "LDTK Layer: ", "")
}

/// The icon of the visibility toggle of a layer.
pub fn visibility_icon(visible: bool) -> (icon: &'static str)
    ensures
        icon@ == (if visible {
            "👁"@
        } else {
            "👁\u{200d}🗨"@
        }),
{
    if visible {
        "👁"
    } else {
        "👁\u{200d}🗨"
    }
}

/// A collider entity and its name, if it has one.
pub struct NamedCollider {
    pub entity: Entity,
    pub name: Option<String>,
}

/// Whether a collider is one that map loading generated: its name holds the
/// word `Collider`.
pub open spec fn is_generated_collider(c: NamedCollider) -> bool {
    c.name is Some && contains_seq(c.name->0@, "Collider"@)
}

/// The generated colliders among the colliders, in their order.
pub open spec fn generated_colliders(cs: Seq<NamedCollider>) -> Seq<Entity>
    decreases cs.len(),
{
    if cs.len() == 0 {
        Seq::empty()
    } else {
        let rest = generated_colliders(cs.drop_last());
        if is_generated_collider(cs.last()) {
            rest.push(cs.last().entity)
        } else {
            rest
        }
    }
}

/// The entities that the clean-up of colliders removes: the colliders whose
/// name holds `Collider`.
pub fn colliders_to_clean_up(colliders: &Vec<NamedCollider>) -> (removed: Vec<Entity>)
    ensures
        removed@ == generated_colliders(colliders@),
{
    let mut removed: Vec<Entity> = Vec::new();
    let mut i: usize = 0;
    while i < colliders.len()
        invariant
            i <= colliders@.len(),
            removed@ == generated_colliders(colliders@.subrange(0, i as int)),
        decreases colliders@.len() - i,
    {
        proof {
            assert(colliders@.subrange(0, i + 1).drop_last() =~= colliders@.subrange(0, i as int));
        }
        let generated = match &colliders[i].name {
            Some(n) => contains_text(n.as_str(), "Collider"),
            None => false,
        };
        if generated {
            removed.push(colliders[i].entity);
        }
        i += 1;
    }
    proof {
        assert(colliders@.subrange(0, colliders@.len() as int) =~= colliders@);
    }
    removed
}

/// A layer named with the loading prefix before a name in which the prefix
/// does not occur is listed under that name.
pub proof fn lemma_prefixed_layer_name_shown(name: Seq<char>)
    requires
        !contains_seq(name, layer_name_prefix()),
    ensures
        replace_all(layer_name_prefix() + name, layer_name_prefix(), Seq::empty()) == name,
{
    reveal_strlit("LDTK Layer: ");
    let p = layer_name_prefix();
    let s = p + name;
    assert(s.subrange(0, p.len() as int) =~= p);
    assert(s.subrange(p.len() as int, s.len() as int) =~= name);
    lemma_replace_absent(name, p, Seq::empty());
    assert(Seq::<char>::empty() + name =~= name);
}

/// The name under which a map file is listed: its file name, or `Unknown`
/// when its path has none.
pub open spec fn map_label_text(path: Seq<char>) -> Seq<char> {
    match file_name_of(path) {
        Some(n) => n,
        None => "Unknown"@,
    }
}

/// The name under which a map file is listed.
pub fn map_label(path: &str) -> (label: String)
    ensures
        label@ == map_label_text(path@),
{
    match file_name_text(path) {
        Some(n) => n,
        None => String::from_str("Unknown"),
    }
}

/// What the map selector of the layer ordering panel shows: the selected
/// map's name, or an invitation to select one.
pub fn map_selector_caption(selected: &Option<String>) -> (caption: String)
    ensures
        caption@ == (match selected {
            Some(p) => map_label_text(p@),
            None => "Select a map..."@,
        }),
{
    match selected {
        Some(p) => map_label(p.as_str()),
        None => String::from_str("Select a map..."),
    }
}

/// The label of a layer in the layer ordering list: its listed name and its
/// Z-Order.
pub fn layer_order_label(layer_name: &str, z_order: i32) -> (label: String)
    ensures
        label@ == replace_all(layer_name@, layer_name_prefix(), Seq::empty()) + " (Z: "@ + signed_decimal(
            z_order as int,
        ) + ")"@,
{
    let mut label = layer_display_name(layer_name);
    label.append(" (Z: ");
    let z = signed_decimal_text(z_order as i64);
    label.append(z.as_str());
    label.append(")");
    label
}

} // verus!
