//! Settings for generating colliders from tilemap IntGrid layers.

use vstd::prelude::*;
use crate::map_manager::MapManager;

verus! {

/// How colliders are generated from the tiles of a map.
#[derive(Debug, Clone, Copy, PartialEq, Eq, Structural)]
pub enum ColliderType {
    /// Merge adjacent tiles into larger composite shapes.
    Composite,
    /// One collider per tile.
    Individual,
    /// Polygon colliders following tile edges (not offered in the panel yet).
    Polygon,
}

impl Default for ColliderType {
    fn default() -> (t: Self)
        ensures
            t == ColliderType::Composite,
    {
        ColliderType::Composite
    }
}

/// Collider generation settings.
#[derive(Debug, Clone, Copy, PartialEq, Eq, Structural)]
pub struct ColliderConfiguration {
    /// Type of colliders to generate.
    pub collider_type: ColliderType,
    /// IntGrid value whose tiles produce colliders.
    pub collision_value: i64,
    /// Regenerate colliders when a map is reloaded.
    pub auto_regenerate: bool,
}

/// The smallest IntGrid value the panel's field takes.
pub const MIN_COLLISION_VALUE: i64 = 0;

/// The largest IntGrid value the panel's field takes.
pub const MAX_COLLISION_VALUE: i64 = 255;

/// A collision value kept within the range of the panel's field.
pub open spec fn clamp_collision_value(v: int) -> int {
    if v < MIN_COLLISION_VALUE {
        MIN_COLLISION_VALUE as int
    } else if v > MAX_COLLISION_VALUE {
        MAX_COLLISION_VALUE as int
    } else {
        v
    }
}

/// The default settings: composite colliders from IntGrid value 1,
/// regenerated on reload.
pub open spec fn default_configuration() -> ColliderConfiguration {
    ColliderConfiguration {
        collider_type: ColliderType::Composite,
        collision_value: 1,
        auto_regenerate: true,
    }
}

impl Default for ColliderConfiguration {
    fn default() -> (c: Self)
        ensures
            c == default_configuration(),
    {
        ColliderConfiguration {
            collider_type: ColliderType::Composite,
            collision_value: 1,
            auto_regenerate: true,
        }
    }
}

/// The name shown for a collider type.
pub open spec fn spec_collider_type_label(t: ColliderType) -> Seq<char> {
    match t {
        ColliderType::Composite => "Composite"@,
        ColliderType::Individual => "Individual"@,
        ColliderType::Polygon => "Polygon"@,
    }
}

/// The name shown for a collider type.
pub fn collider_type_label(t: ColliderType) -> (s: &'static str)
    ensures
        s@ == spec_collider_type_label(t),
{
    match t {
        ColliderType::Composite => "Composite",
        ColliderType::Individual => "Individual",
        ColliderType::Polygon => "Polygon",
    }
}

/// The status shown for the auto-regenerate setting.
pub fn auto_regenerate_label(enabled: bool) -> (s: &'static str)
    ensures
        s@ == (if enabled {
            "Enabled"@
        } else {
            "Disabled"@
        }),
{
    if enabled {
        "Enabled"
    } else {
        "Disabled"
    }
}

/// Panel that edits the collider settings and pushes them to the map
/// registry.
pub struct ColliderSettingsPanel {
    /// The settings being edited.
    pub configuration: ColliderConfiguration,
    /// Whether the settings changed since they were last applied, saved or
    /// loaded.
    pub has_changes: bool,
}

impl ColliderSettingsPanel {
    /// A panel holding the default settings, with no changes.
    pub fn new() -> (p: Self)
        ensures
            p.configuration == default_configuration(),
            !p.has_changes,
    {
        ColliderSettingsPanel { configuration: ColliderConfiguration::default(), has_changes: false }
    }

    /// A panel holding `configuration`, with no changes.
    pub fn with_configuration(configuration: ColliderConfiguration) -> (p: Self)
        ensures
            p.configuration == configuration,
            !p.has_changes,
    {
        ColliderSettingsPanel { configuration, has_changes: false }
    }

    /// The settings being edited.
    pub fn get_configuration(&self) -> (c: &ColliderConfiguration)
        ensures
            *c == self.configuration,
    {
        &self.configuration
    }

    /// Replaces the settings; the panel then has changes.
    pub fn set_configuration(&mut self, configuration: ColliderConfiguration)
        ensures
            final(self).configuration == configuration,
            final(self).has_changes,
    {
        self.configuration = configuration;
        self.has_changes = true;
    }

    /// Pushes the collision value and the auto-regenerate setting to the map
    /// registry; nothing else of the registry changes.
    pub fn apply_to_map_manager(&self, map_manager: &mut MapManager)
        ensures
            applied_to(self.configuration, *old(map_manager), *final(map_manager)),
    {
        map_manager.set_collision_value(self.configuration.collision_value);
        map_manager.set_auto_regenerate_colliders(self.configuration.auto_regenerate);
    }

    /// Takes the collision value and the auto-regenerate setting from the map
    /// registry; the collider type is kept and the panel has no changes.
    pub fn load_from_map_manager(&mut self, map_manager: &MapManager)
        ensures
            loaded_from(*old(self), *final(self), *map_manager),
    {
        self.configuration.collision_value = map_manager.get_collision_value();
        self.configuration.auto_regenerate = map_manager.get_auto_regenerate_colliders();
        self.has_changes = false;
    }

    /// Picks a collider type with the radio buttons. The polygon type cannot
    /// be picked yet; picking the current type changes nothing.
    pub fn select_collider_type(&mut self, collider_type: ColliderType)
        ensures
            if collider_type != ColliderType::Polygon && collider_type
                != old(self).configuration.collider_type {
                &&& final(self).configuration == (ColliderConfiguration {
                    collider_type,
                    ..old(self).configuration
                })
                &&& final(self).has_changes
            } else {
                *final(self) == *old(self)
            },
    {
        if collider_type != ColliderType::Polygon && collider_type != self.configuration.collider_type {
            self.configuration.collider_type = collider_type;
            self.has_changes = true;
        }
    }

    /// Records the collision value entered in the panel, kept within
    /// [`MIN_COLLISION_VALUE`] and [`MAX_COLLISION_VALUE`] as the panel's
    /// field keeps it; a value that comes out as the current one changes
    /// nothing.
    pub fn edit_collision_value(&mut self, value: i64)
        ensures
            if clamp_collision_value(value as int) != old(self).configuration.collision_value {
                &&& final(self).configuration == (ColliderConfiguration {
                    collision_value: clamp_collision_value(value as int) as i64,
                    ..old(self).configuration
                })
                &&& final(self).has_changes
            } else {
                *final(self) == *old(self)
            },
    {
        let clamped: i64 = if value < MIN_COLLISION_VALUE {
            MIN_COLLISION_VALUE
        } else if value > MAX_COLLISION_VALUE {
            MAX_COLLISION_VALUE
        } else {
            value
        };
        if clamped != self.configuration.collision_value {
            self.configuration.collision_value = clamped;
            self.has_changes = true;
        }
    }

    /// Records the state of the auto-regenerate checkbox; the current state
    /// changes nothing.
    pub fn edit_auto_regenerate(&mut self, enabled: bool)
        ensures
            if enabled != old(self).configuration.auto_regenerate {
                &&& final(self).configuration == (ColliderConfiguration {
                    auto_regenerate: enabled,
                    ..old(self).configuration
                })
                &&& final(self).has_changes
            } else {
                *final(self) == *old(self)
            },
    {
        if enabled != self.configuration.auto_regenerate {
            self.configuration.auto_regenerate = enabled;
            self.has_changes = true;
        }
    }

    /// Handles the "Apply Settings" and "Reset to Defaults" buttons: applying
    /// pushes the settings to the map registry and clears the changes;
    /// resetting then restores the default settings, which counts as a change.
    /// Returns whether the settings were applied.
    pub fn handle_action_buttons_with_apply(
        &mut self,
        apply_clicked: bool,
        reset_clicked: bool,
        map_manager: &mut MapManager,
    ) -> (applied: bool)
        ensures
            applied == apply_clicked,
            final(self).configuration == (if reset_clicked {
                default_configuration()
            } else {
                old(self).configuration
            }),
            final(self).has_changes == (if reset_clicked {
                true
            } else if apply_clicked {
                false
            } else {
                old(self).has_changes
            }),
            final(map_manager).collision_value == (if apply_clicked {
                final(self).configuration.collision_value
            } else {
                old(map_manager).collision_value
            }),
            final(map_manager).auto_regenerate_colliders == (if apply_clicked {
                final(self).configuration.auto_regenerate
            } else {
                old(map_manager).auto_regenerate_colliders
            }),
            final(map_manager).loaded_maps == old(map_manager).loaded_maps,
            final(map_manager).available_files == old(map_manager).available_files,
            final(map_manager).selected_map == old(map_manager).selected_map,
    {
        let mut applied = false;
        if apply_clicked {
            applied = true;
            self.has_changes = false;
        }
        if reset_clicked {
            self.configuration = ColliderConfiguration::default();
            self.has_changes = true;
        }
        if applied {
            self.apply_to_map_manager(map_manager);
        }
        applied
    }

    /// Handles the "Save Settings" and "Reset to Defaults" buttons: saving
    /// clears the changes (the caller writes the settings); resetting then
    /// restores the default settings, which counts as a change.
    pub fn handle_action_buttons(&mut self, save_clicked: bool, reset_clicked: bool)
        ensures
            final(self).configuration == (if reset_clicked {
                default_configuration()
            } else {
                old(self).configuration
            }),
            final(self).has_changes == (if reset_clicked {
                true
            } else if save_clicked {
                false
            } else {
                old(self).has_changes
            }),
    {
        if save_clicked {
            self.has_changes = false;
        }
        if reset_clicked {
            self.configuration = ColliderConfiguration::default();
            self.has_changes = true;
        }
    }

    /// Takes the outcome of reading the project's collider settings: the
    /// settings read, or `None` when the project has no settings file, or the
    /// error met while reading or parsing. Settings read replace the panel's;
    /// no file means the default settings; either way the panel has no
    /// changes. An error leaves the panel as it was and is returned.
    pub fn load_configuration(
        &mut self,
        read: Result<Option<ColliderConfiguration>, String>,
    ) -> (r: Result<(), String>)
        ensures
            match read {
                Ok(Some(c)) => r is Ok && final(self).configuration == c && !final(self).has_changes,
                Ok(None) => r is Ok && final(self).configuration == default_configuration()
                    && !final(self).has_changes,
                Err(e) => r == Err::<(), String>(e) && *final(self) == *old(self),
            },
    {
        match read {
            Ok(Some(c)) => {
                self.configuration = c;
                self.has_changes = false;
                Ok(())
            },
            Ok(None) => {
                self.configuration = ColliderConfiguration::default();
                self.has_changes = false;
                Ok(())
            },
            Err(e) => Err(e),
        }
    }

    /// Takes the outcome of writing the settings to the project: once they
    /// are written the panel has no changes; an error leaves the panel as it
    /// was and is returned.
    pub fn save_configuration(&mut self, written: Result<(), String>) -> (r: Result<(), String>)
        ensures
            r == written,
            final(self).configuration == old(self).configuration,
            final(self).has_changes == (old(self).has_changes && written is Err),
    {
        if written.is_ok() {
            self.has_changes = false;
        }
        written
    }
}

impl Default for ColliderSettingsPanel {
    fn default() -> (p: Self)
        ensures
            p.configuration == default_configuration(),
            !p.has_changes,
    {
        Self::new()
    }
}

/// The registry `new` is `old` with the collision value and the
/// auto-regenerate setting of `c`; nothing else of it changes.
pub open spec fn applied_to(c: ColliderConfiguration, old: MapManager, new: MapManager) -> bool {
    &&& new.collision_value == c.collision_value
    &&& new.auto_regenerate_colliders == c.auto_regenerate
    &&& new.loaded_maps == old.loaded_maps
    &&& new.available_files == old.available_files
    &&& new.selected_map == old.selected_map
}

/// The panel `new` is `old` with the collision value and the
/// auto-regenerate setting of the registry `mm`, its collider type kept, and
/// no changes.
pub open spec fn loaded_from(old: ColliderSettingsPanel, new: ColliderSettingsPanel, mm: MapManager) -> bool {
    &&& new.configuration.collision_value == mm.collision_value
    &&& new.configuration.auto_regenerate == mm.auto_regenerate_colliders
    &&& new.configuration.collider_type == old.configuration.collider_type
    &&& !new.has_changes
}

/// Applying the panel's settings to the registry and then loading them back
/// gives the panel the settings it had, with no changes.
pub proof fn lemma_apply_then_load(
    p0: ColliderSettingsPanel,
    mm0: MapManager,
    mm1: MapManager,
    p1: ColliderSettingsPanel,
)
    requires
        applied_to(p0.configuration, mm0, mm1),
        loaded_from(p0, p1, mm1),
    ensures
        p1.configuration == p0.configuration,
        !p1.has_changes,
{
}

/// Loading the registry's settings into the panel and then applying them
/// leaves the registry as it was.
pub proof fn lemma_load_then_apply(
    p0: ColliderSettingsPanel,
    mm0: MapManager,
    p1: ColliderSettingsPanel,
    mm1: MapManager,
)
    requires
        loaded_from(p0, p1, mm0),
        applied_to(p1.configuration, mm0, mm1),
    ensures
        mm1 == mm0,
{
}

} // verus!
