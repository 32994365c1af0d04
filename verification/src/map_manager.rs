//! The map registry state that the editor panels read and write.

use vstd::prelude::*;
use crate::text::{text_equals, views_of};

verus! {

/// Identifier of an entity in the scene world.
pub type Entity = u64;

/// One tilemap layer of a loaded map.
pub struct LayerInfo {
    /// Entity that renders the layer.
    pub entity: Entity,
    /// Display name of the layer.
    pub name: String,
    /// Rendering order: higher values render on top.
    pub z_order: i32,
    /// Whether the layer is shown.
    pub visible: bool,
    /// Layer size in tiles (width, height).
    pub size: (u32, u32),
}

/// A map that is currently loaded into the world.
pub struct LoadedMap {
    /// Path of the map file, the key under which the map is registered.
    pub path: String,
    /// Entity of the map's grid.
    pub grid_entity: Entity,
    /// The map's tilemap layers.
    pub layer_entities: Vec<LayerInfo>,
    /// Collider entities generated for the map.
    pub collider_entities: Vec<Entity>,
}

impl LoadedMap {
    /// No entity appears twice among the layers of the map.
    pub open spec fn layers_unique(&self) -> bool {
        forall|i: int, j: int|
            0 <= i < j < self.layer_entities@.len() ==> self.layer_entities@[i].entity
                != self.layer_entities@[j].entity
    }
}

/// Registry of the maps known to the editor and of the collider settings used
/// when colliders are generated for them.
pub struct MapManager {
    /// Maps that are loaded, each registered under its path.
    pub loaded_maps: Vec<LoadedMap>,
    /// Map files that can be loaded.
    pub available_files: Vec<String>,
    /// Map selected in the maps panel.
    pub selected_map: Option<String>,
    /// IntGrid value whose tiles produce colliders.
    pub collision_value: i64,
    /// Whether colliders are regenerated when a map is reloaded.
    pub auto_regenerate_colliders: bool,
}

impl MapManager {
    /// The loaded maps are registered under distinct paths.
    pub open spec fn wf(&self) -> bool {
        forall|i: int, j: int|
            0 <= i < j < self.loaded_maps@.len() ==> self.loaded_maps@[i].path@
                != self.loaded_maps@[j].path@
    }

    /// An empty registry; colliders come from IntGrid value 1 and are
    /// regenerated on reload.
    pub fn new() -> (m: Self)
        ensures
            m.loaded_maps@.len() == 0,
            m.available_files@.len() == 0,
            m.selected_map is None,
            m.collision_value == 1,
            m.auto_regenerate_colliders,
            m.wf(),
    {
        MapManager {
            loaded_maps: Vec::new(),
            available_files: Vec::new(),
            selected_map: None,
            collision_value: 1,
            auto_regenerate_colliders: true,
        }
    }

    /// Whether a map is loaded under this path (paths compared as written).
    pub open spec fn has_loaded(&self, path: Seq<char>) -> bool {
        exists|i: int| 0 <= i < self.loaded_maps@.len() && #[trigger] self.loaded_maps@[i].path@ == path
    }

    /// Whether a map is loaded under this path.
    pub fn is_loaded(&self, path: &str) -> (b: bool)
        ensures
            b == self.has_loaded(path@),
    {
        let mut i: usize = 0;
        while i < self.loaded_maps.len()
            invariant
                i <= self.loaded_maps@.len(),
                forall|k: int| 0 <= k < i ==> #[trigger] self.loaded_maps@[k].path@ != path@,
            decreases self.loaded_maps@.len() - i,
        {
            if text_equals(self.loaded_maps[i].path.as_str(), path) {
                return true;
            }
            i += 1;
        }
        false
    }

    /// Adds a map file to the files that can be loaded, unless it is listed
    /// already (paths compared as written).
    pub fn add_available_file(&mut self, path: String)
        ensures
            views_of(old(self).available_files@).contains(path@) ==> final(self).available_files
                == old(self).available_files,
            !views_of(old(self).available_files@).contains(path@) ==> final(self).available_files@
                == old(self).available_files@.push(path),
            final(self).loaded_maps == old(self).loaded_maps,
            final(self).selected_map == old(self).selected_map,
            final(self).collision_value == old(self).collision_value,
            final(self).auto_regenerate_colliders == old(self).auto_regenerate_colliders,
    {
        let mut i: usize = 0;
        while i < self.available_files.len()
            invariant
                i <= self.available_files@.len(),
                forall|k: int| 0 <= k < i ==> #[trigger] self.available_files@[k]@ != path@,
            decreases self.available_files@.len() - i,
        {
            if text_equals(self.available_files[i].as_str(), path.as_str()) {
                proof {
                    assert(views_of(self.available_files@)[i as int] == path@);
                }
                return;
            }
            i += 1;
        }
        proof {
            assert forall|k: int| 0 <= k < views_of(self.available_files@).len() implies views_of(self.available_files@)[k] != path@ by {
                assert(self.available_files@[k]@ != path@);
            }
        }
        self.available_files.push(path);
    }

    /// Selects a map file in the maps panel; returns whether it still has to
    /// be loaded.
    pub fn select_map(&mut self, path: String) -> (needs_load: bool)
        ensures
            final(self).selected_map == Some(path),
            needs_load == !old(self).has_loaded(path@),
            final(self).loaded_maps == old(self).loaded_maps,
            final(self).available_files == old(self).available_files,
            final(self).collision_value == old(self).collision_value,
            final(self).auto_regenerate_colliders == old(self).auto_regenerate_colliders,
    {
        let loaded = self.is_loaded(path.as_str());
        self.selected_map = Some(path);
        !loaded
    }

    /// The number of colliders generated for the map loaded under this path;
    /// zero when none is.
    pub fn collider_count(&self, path: &str) -> (count: usize)
        requires
            self.wf(),
        ensures
            self.has_loaded(path@) ==> exists|i: int|
                0 <= i < self.loaded_maps@.len() && self.loaded_maps@[i].path@ == path@ && count
                    == self.loaded_maps@[i].collider_entities@.len(),
            !self.has_loaded(path@) ==> count == 0,
    {
        let mut i: usize = 0;
        while i < self.loaded_maps.len()
            invariant
                i <= self.loaded_maps@.len(),
                forall|k: int| 0 <= k < i ==> #[trigger] self.loaded_maps@[k].path@ != path@,
            decreases self.loaded_maps@.len() - i,
        {
            if text_equals(self.loaded_maps[i].path.as_str(), path) {
                return self.loaded_maps[i].collider_entities.len();
            }
            i += 1;
        }
        0
    }

    /// Sets the IntGrid value whose tiles produce colliders.
    pub fn set_collision_value(&mut self, value: i64)
        ensures
            final(self).collision_value == value,
            final(self).auto_regenerate_colliders == old(self).auto_regenerate_colliders,
            final(self).loaded_maps == old(self).loaded_maps,
            final(self).available_files == old(self).available_files,
            final(self).selected_map == old(self).selected_map,
    {
        self.collision_value = value;
    }

    /// The IntGrid value whose tiles produce colliders.
    pub fn get_collision_value(&self) -> (v: i64)
        ensures
            v == self.collision_value,
    {
        self.collision_value
    }

    /// Sets whether colliders are regenerated when a map is reloaded.
    pub fn set_auto_regenerate_colliders(&mut self, enabled: bool)
        ensures
            final(self).auto_regenerate_colliders == enabled,
            final(self).collision_value == old(self).collision_value,
            final(self).loaded_maps == old(self).loaded_maps,
            final(self).available_files == old(self).available_files,
            final(self).selected_map == old(self).selected_map,
    {
        self.auto_regenerate_colliders = enabled;
    }

    /// Whether colliders are regenerated when a map is reloaded.
    pub fn get_auto_regenerate_colliders(&self) -> (b: bool)
        ensures
            b == self.auto_regenerate_colliders,
    {
        self.auto_regenerate_colliders
    }
}

} // verus!
