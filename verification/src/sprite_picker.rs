//! State of the sprite picker, the popup that lists the sprites of a
//! project's sprite files and hands back the one clicked.

use vstd::prelude::*;
use crate::paths::{extension_of_path, path_extension};
use crate::text::{contains_seq, contains_text, text_equals};

verus! {

broadcast use vstd::string::group_string_axioms;

/// A sprite chosen in the picker.
#[derive(Debug, Clone)]
pub struct SpritePickerResult {
    /// Path of the `.sprite` file that describes the sprite.
    pub sprite_file_path: String,
    /// Path of the texture image, relative to the project.
    pub texture_path: String,
    /// Name of the sprite.
    pub sprite_name: String,
    /// Place of the sprite among those of its file.
    pub frame_index: usize,
}

/// State of the sprite picker popup.
pub struct SpritePickerState {
    /// Whether the popup is open.
    pub is_open: bool,
    /// Text that the listed sprite files must contain.
    pub search_filter: String,
    /// The sprite selected, if any.
    pub selected: Option<SpritePickerResult>,
}

impl SpritePickerState {
    /// A closed picker with an empty search.
    pub fn new() -> (state: Self)
        ensures
            !state.is_open,
            state.search_filter@ == Seq::<char>::empty(),
            state.selected is None,
    {
        SpritePickerState { is_open: false, search_filter: String::new(), selected: None }
    }

    /// Opens the picker with an empty search and no selection.
    pub fn open(&mut self)
        ensures
            final(self).is_open,
            final(self).search_filter@ == Seq::<char>::empty(),
            final(self).selected is None,
    {
        self.is_open = true;
        self.search_filter = String::new();
        self.selected = None;
    }

    /// Closes the picker; the search and the selection stay.
    pub fn close(&mut self)
        ensures
            !final(self).is_open,
            final(self).search_filter == old(self).search_filter,
            final(self).selected == old(self).selected,
    {
        self.is_open = false;
    }

    /// Ends a frame of the popup in which `picked` was clicked, if anything:
    /// a closed picker hands back nothing; a click hands back its sprite and
    /// closes the picker. What is clicked is a sprite of a listed sprite
    /// file (see [`pick_sprite`]).
    pub fn finish_frame(&mut self, picked: Option<SpritePickerResult>) -> (result: Option<
        SpritePickerResult,
    >)
        requires
            picked matches Some(r) ==> is_sprite_path(r.sprite_file_path@),
        ensures
            result matches Some(r) ==> is_sprite_path(r.sprite_file_path@),
            result == (if old(self).is_open {
                picked
            } else {
                None::<SpritePickerResult>
            }),
            final(self).is_open == (old(self).is_open && picked is None),
            final(self).search_filter == old(self).search_filter,
            final(self).selected == old(self).selected,
    {
        if !self.is_open {
            return None;
        }
        if picked.is_some() {
            self.close();
        }
        picked
    }
}

impl Default for SpritePickerState {
    fn default() -> (state: Self)
        ensures
            !state.is_open,
            state.search_filter@ == Seq::<char>::empty(),
            state.selected is None,
    {
        SpritePickerState::new()
    }
}

/// What std's `str::to_lowercase` returns for a text: its lowercase form
/// under Unicode's case mapping, in which some characters map by where they
/// stand in a word.
pub uninterp spec fn lowercase_of(text: Seq<char>) -> Seq<char>;

/// Calls std's `str::to_lowercase`. Its result, a function of the text alone
/// that needs Unicode's tables to state, is named by [`lowercase_of`].
#[verifier::external_body]
fn to_lowercase(text: &str) -> (lower: String)
    ensures
        lower@ == lowercase_of(text@),
{
    text.to_lowercase()
}

/// Whether a sprite file is listed under a search: always for an empty
/// search, else when the lowercase file name contains the lowercase search.
pub open spec fn listed_under(file_name: Seq<char>, filter: Seq<char>) -> bool {
    filter.len() == 0 || contains_seq(lowercase_of(file_name), lowercase_of(filter))
}

/// Whether the sprite file with this name (without extension) is listed
/// under the search text.
pub fn matches_search(file_name: &str, search_filter: &str) -> (listed: bool)
    ensures
        listed == listed_under(file_name@, search_filter@),
{
    if search_filter.is_empty() {
        return true;
    }
    let name = to_lowercase(file_name);
    let filter = to_lowercase(search_filter);
    contains_text(name.as_str(), filter.as_str())
}

/// A path names a sprite file: its extension is `sprite`.
pub open spec fn is_sprite_path(path: Seq<char>) -> bool {
    path_extension(path) == Some("sprite"@)
}

/// The sprite at place `index` among the sprites of a sprite file, whose
/// names are `sprite_names`, with the texture they are cut from.
pub fn pick_sprite(
    sprite_file_path: String,
    texture_path: String,
    sprite_names: &Vec<String>,
    index: usize,
) -> (picked: SpritePickerResult)
    requires
        is_sprite_path(sprite_file_path@),
        index < sprite_names@.len(),
    ensures
        picked.sprite_file_path == sprite_file_path,
        picked.texture_path == texture_path,
        picked.sprite_name@ == sprite_names@[index as int]@,
        picked.frame_index == index,
        is_sprite_path(picked.sprite_file_path@),
        picked.frame_index < sprite_names@.len(),
{
    SpritePickerResult {
        sprite_file_path,
        texture_path,
        sprite_name: sprite_names[index].clone(),
        frame_index: index,
    }
}

/// Whether a path names a sprite file: its extension is `sprite`.
pub fn is_sprite_file(path: &str) -> (b: bool)
    ensures
        b == is_sprite_path(path@),
{
    match extension_of_path(path) {
        Some(e) => text_equals(e.as_str(), "sprite"),
        None => false,
    }
}

} // verus!
