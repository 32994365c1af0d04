//! State of the texture inspector, which shows the import settings of the
//! texture selected in the project browser.

use vstd::prelude::*;

verus! {

/// An action that the inspector's buttons ask for.
#[derive(Debug, Clone, Copy, PartialEq, Eq, Structural)]
pub enum TextureInspectorAction {
    /// Apply the settings and save them beside the texture.
    Apply,
    /// Go back to the saved settings.
    Revert,
}

/// The texture inspector, over the type `S` of a texture's import settings.
pub struct TextureInspector<S> {
    /// Path of the selected texture.
    pub selected_texture: Option<String>,
    /// The settings shown.
    pub settings: S,
    /// Whether the settings shown were edited since they were loaded.
    pub has_changes: bool,
}

/// An inspector with no texture selected, showing `default_settings`, with
/// no changes.
pub open spec fn empty_inspector<S>(default_settings: S) -> TextureInspector<S> {
    TextureInspector { selected_texture: None, settings: default_settings, has_changes: false }
}

/// Clearing an inspector gives, whatever it held before, the inspector that
/// `new` makes with the same default settings; clearing it again changes
/// nothing.
pub proof fn lemma_clear_gives_new<S>(
    before: TextureInspector<S>,
    cleared: TextureInspector<S>,
    cleared_again: TextureInspector<S>,
    default_settings: S,
)
    requires
        cleared == empty_inspector(default_settings),
        cleared_again == empty_inspector(default_settings),
    ensures
        cleared == empty_inspector(default_settings),
        cleared_again == cleared,
{
}

impl<S> TextureInspector<S> {
    /// An inspector with no texture selected, showing the default settings.
    pub fn new(default_settings: S) -> (inspector: Self)
        ensures
            inspector == empty_inspector(default_settings),
    {
        TextureInspector { selected_texture: None, settings: default_settings, has_changes: false }
    }

    /// Selects a texture and shows the settings saved for it, or the default
    /// settings when none could be loaded.
    pub fn set_texture(&mut self, texture_path: String, loaded: Option<S>, default_settings: S)
        ensures
            final(self).selected_texture == Some(texture_path),
            final(self).settings == (match loaded {
                Some(s) => s,
                None => default_settings,
            }),
            !final(self).has_changes,
    {
        self.selected_texture = Some(texture_path);
        self.settings = match loaded {
            Some(s) => s,
            None => default_settings,
        };
        self.has_changes = false;
    }

    /// Clears the selection and shows the default settings.
    pub fn clear(&mut self, default_settings: S)
        ensures
            *final(self) == empty_inspector(default_settings),
    {
        self.selected_texture = None;
        self.settings = default_settings;
        self.has_changes = false;
    }

    /// Records the outcome of one settings control: a change marks the
    /// settings of the selected texture as edited. Without a selected texture
    /// no control is shown, and nothing changes.
    pub fn note_edit(&mut self, changed: bool)
        ensures
            final(self).selected_texture == old(self).selected_texture,
            final(self).settings == old(self).settings,
            final(self).has_changes == (old(self).has_changes || (changed
                && old(self).selected_texture is Some)),
    {
        if changed && self.selected_texture.is_some() {
            self.has_changes = true;
        }
    }

    /// The action asked for by the Apply and Revert buttons of one frame.
    /// The buttons act only on edited settings of a selected texture, and of
    /// two clicks in one frame Revert, handled last, wins.
    pub fn button_action(&self, apply_clicked: bool, revert_clicked: bool) -> (action: Option<
        TextureInspectorAction,
    >)
        ensures
            action == (if self.selected_texture is Some && self.has_changes && revert_clicked {
                Some(TextureInspectorAction::Revert)
            } else if self.selected_texture is Some && self.has_changes && apply_clicked {
                Some(TextureInspectorAction::Apply)
            } else {
                None::<TextureInspectorAction>
            }),
    {
        let mut action = None;
        if self.selected_texture.is_some() {
            if apply_clicked && self.has_changes {
                action = Some(TextureInspectorAction::Apply);
            }
            if revert_clicked && self.has_changes {
                action = Some(TextureInspectorAction::Revert);
            }
        }
        action
    }
}

} // verus!
