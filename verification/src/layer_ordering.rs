//! Ordering of the tilemap layers of a loaded map by their Z-Order.

use vstd::prelude::*;
use std::collections::HashMap;
use crate::map_manager::{Entity, LayerInfo, MapManager};

verus! {

broadcast use vstd::std_specs::hash::group_hash_axioms;

/// The Z-Orders of a list of layers.
pub open spec fn z_orders(layers: Seq<LayerInfo>) -> Seq<i32> {
    layers.map_values(|l: LayerInfo| l.z_order)
}

/// Layer `a` is listed before layer `b` from the top down: it has the higher
/// Z-Order, or the same Z-Order and an earlier place in the list.
pub open spec fn listed_before(zs: Seq<i32>, a: usize, b: usize) -> bool {
    zs[a as int] > zs[b as int] || (zs[a as int] == zs[b as int] && a < b)
}

/// `order` lists every position of a layer list exactly once, from the layer
/// that renders on top down to the one that renders at the bottom; layers of
/// equal Z-Order keep their order in the list.
pub open spec fn is_z_desc_order(zs: Seq<i32>, order: Seq<usize>) -> bool {
    &&& order.len() == zs.len()
    &&& forall|i: int| 0 <= i < order.len() ==> #[trigger] order[i] < zs.len()
    &&& forall|i: int, j: int|
        0 <= i < j < order.len() ==> #[trigger] listed_before(zs, order[i], order[j])
    &&& forall|k: usize| k < zs.len() ==> #[trigger] order.contains(k)
}

/// The positions of `layers` from the top-most layer down: higher Z-Order
/// first, layers of equal Z-Order in list order.
pub fn layer_display_order(layers: &Vec<LayerInfo>) -> (order: Vec<usize>)
    ensures
        is_z_desc_order(z_orders(layers@), order@),
{
    let n = layers.len();
    let ghost zs = z_orders(layers@);
    let mut order: Vec<usize> = Vec::new();
    let mut t: usize = 0;
    while t < n
        invariant
            n == layers@.len(),
            zs == z_orders(layers@),
            t <= n,
            order@.len() == t,
            forall|i: int| 0 <= i < order@.len() ==> #[trigger] order@[i] < t,
            forall|i: int, j: int|
                0 <= i < j < order@.len() ==> #[trigger] listed_before(zs, order@[i], order@[j]),
            forall|k: usize| k < t ==> #[trigger] order@.contains(k),
        decreases n - t,
    {
        let zt = layers[t].z_order;
        let mut p: usize = 0;
        while p < order.len() && layers[order[p]].z_order >= zt
            invariant
                n == layers@.len(),
                zs == z_orders(layers@),
                t < n,
                zt == zs[t as int],
                p <= order@.len(),
                forall|i: int| 0 <= i < order@.len() ==> #[trigger] order@[i] < t,
                forall|q: int| 0 <= q < p ==> zs[#[trigger] order@[q] as int] >= zt,
            decreases order@.len() - p,
        {
            p += 1;
        }
        proof {
            assert forall|q: int| p <= q < order@.len() implies zs[#[trigger] order@[q] as int] < zt by {
                if q > p {
                    assert(listed_before(zs, order@[p as int], order@[q]));
                }
            }
        }
        let ghost old_order = order@;
        order.insert(p, t);
        proof {
            assert forall|k: usize| k < t + 1 implies #[trigger] order@.contains(k) by {
                if k == t {
                    assert(order@[p as int] == t);
                } else {
                    assert(old_order.contains(k));
                    let j = choose|j: int| 0 <= j < old_order.len() && old_order[j] == k;
                    if j < p {
                        assert(order@[j] == k);
                    } else {
                        assert(order@[j + 1] == k);
                    }
                }
            }
            assert forall|i: int, j: int|
                0 <= i < j < order@.len() implies #[trigger] listed_before(zs, order@[i], order@[j]) by {
                if j < p {
                    assert(listed_before(zs, old_order[i], old_order[j]));
                } else if j == p {
                    assert(zs[old_order[i] as int] >= zt);
                } else if i < p {
                    assert(zs[old_order[j - 1] as int] < zt);
                    assert(zs[old_order[i] as int] >= zt);
                } else if i == p {
                    assert(zs[old_order[j - 1] as int] < zt);
                } else {
                    assert(listed_before(zs, old_order[i - 1], old_order[j - 1]));
                }
            }
        }
        t += 1;
    }
    order
}


/// Every layer keeps its entity, name, visibility and size; only the Z-Order
/// may differ.
pub open spec fn same_layers_but_z(old: Seq<LayerInfo>, new: Seq<LayerInfo>) -> bool {
    &&& new.len() == old.len()
    &&& forall|k: int|
        #![trigger new[k]]
        0 <= k < old.len() ==> {
            &&& new[k].entity == old[k].entity
            &&& new[k].name == old[k].name
            &&& new[k].visible == old[k].visible
            &&& new[k].size == old[k].size
        }
}

/// No layer before place `k` has the entity of the layer at `k`: it is the
/// first layer of its entity.
pub open spec fn is_first_of(layers: Seq<LayerInfo>, k: int) -> bool {
    forall|j: int| 0 <= j < k ==> layers[j].entity != layers[k].entity
}

/// Two lists of the same layers but for their Z-Orders agree on which layer
/// is the first of its entity.
pub proof fn lemma_same_first(old: Seq<LayerInfo>, new: Seq<LayerInfo>, k: int)
    requires
        same_layers_but_z(old, new),
        0 <= k < old.len(),
    ensures
        is_first_of(old, k) == is_first_of(new, k),
{
    assert(new[k].entity == old[k].entity);
    assert forall|j: int| 0 <= j < k implies new[j].entity == old[j].entity by {
        assert(new[j].entity == old[j].entity);
    }
}

/// The first layer of entity `e` gets Z-Order `z`; every other layer is
/// unchanged.
pub open spec fn layer_z_set(old: Seq<LayerInfo>, new: Seq<LayerInfo>, e: Entity, z: i32) -> bool {
    &&& same_layers_but_z(old, new)
    &&& forall|k: int|
        #![trigger new[k]]
        0 <= k < old.len() ==> new[k].z_order == (if old[k].entity == e && is_first_of(old, k) {
            z
        } else {
            old[k].z_order
        })
}

/// In every loaded map the first layer of entity `e` gets Z-Order `z`;
/// nothing else of the registry changes.
pub open spec fn maps_layer_z_set(old: MapManager, new: MapManager, e: Entity, z: i32) -> bool {
    &&& new.loaded_maps@.len() == old.loaded_maps@.len()
    &&& forall|j: int|
        #![trigger new.loaded_maps@[j]]
        0 <= j < old.loaded_maps@.len() ==> {
            &&& new.loaded_maps@[j].path == old.loaded_maps@[j].path
            &&& new.loaded_maps@[j].grid_entity == old.loaded_maps@[j].grid_entity
            &&& new.loaded_maps@[j].collider_entities == old.loaded_maps@[j].collider_entities
            &&& layer_z_set(
                old.loaded_maps@[j].layer_entities@,
                new.loaded_maps@[j].layer_entities@,
                e,
                z,
            )
        }
    &&& new.available_files == old.available_files
    &&& new.selected_map == old.selected_map
    &&& new.collision_value == old.collision_value
    &&& new.auto_regenerate_colliders == old.auto_regenerate_colliders
}

/// What raising the layer of entity `e` does: its tilemap's Z-Order goes up
/// by one in the world, and the first layer of `e` in every loaded map takes
/// the new value; nothing happens when the world has no tilemap for `e`.
pub open spec fn layer_moved_up(
    old_tm: Map<Entity, i32>,
    new_tm: Map<Entity, i32>,
    old_mm: MapManager,
    new_mm: MapManager,
    e: Entity,
) -> bool {
    if old_tm.contains_key(e) {
        let z = (old_tm[e] + 1) as i32;
        &&& new_tm == old_tm.insert(e, z)
        &&& maps_layer_z_set(old_mm, new_mm, e, z)
    } else {
        &&& new_tm == old_tm
        &&& new_mm == old_mm
    }
}

/// What lowering the layer of entity `e` does: its tilemap's Z-Order goes down
/// by one in the world, and the first layer of `e` in every loaded map takes
/// the new value, unless it is at [`MIN_Z_ORDER`] or below; nothing happens when the world has no tilemap for
/// `e`.
pub open spec fn layer_moved_down(
    old_tm: Map<Entity, i32>,
    new_tm: Map<Entity, i32>,
    old_mm: MapManager,
    new_mm: MapManager,
    e: Entity,
) -> bool {
    if old_tm.contains_key(e) && old_tm[e] > MIN_Z_ORDER {
        let z = (old_tm[e] - 1) as i32;
        &&& new_tm == old_tm.insert(e, z)
        &&& maps_layer_z_set(old_mm, new_mm, e, z)
    } else {
        &&& new_tm == old_tm
        &&& new_mm == old_mm
    }
}

/// Position of the first layer of entity `e`, if any.
fn find_layer(layers: &Vec<LayerInfo>, e: Entity) -> (r: Option<usize>)
    ensures
        match r {
            Some(k) => k < layers@.len() && layers@[k as int].entity == e && forall|q: int|
                0 <= q < k ==> layers@[q].entity != e,
            None => forall|q: int| 0 <= q < layers@.len() ==> layers@[q].entity != e,
        },
{
    let mut k: usize = 0;
    while k < layers.len()
        invariant
            k <= layers@.len(),
            forall|q: int| 0 <= q < k ==> layers@[q].entity != e,
        decreases layers@.len() - k,
    {
        if layers[k].entity == e {
            return Some(k);
        }
        k += 1;
    }
    None
}

/// Gives the first layer of entity `e` Z-Order `z` in every loaded map.
fn set_layer_z_in_all_maps(map_manager: &mut MapManager, e: Entity, z: i32)
    requires
        old(map_manager).wf(),
    ensures
        final(map_manager).wf(),
        maps_layer_z_set(*old(map_manager), *final(map_manager), e, z),
{
    let ghost old_mm = *map_manager;
    let mut j: usize = 0;
    while j < map_manager.loaded_maps.len()
        invariant
            old_mm.wf(),
            j <= map_manager.loaded_maps@.len(),
            map_manager.loaded_maps@.len() == old_mm.loaded_maps@.len(),
            map_manager.available_files == old_mm.available_files,
            map_manager.selected_map == old_mm.selected_map,
            map_manager.collision_value == old_mm.collision_value,
            map_manager.auto_regenerate_colliders == old_mm.auto_regenerate_colliders,
            forall|q: int|
                j <= q < map_manager.loaded_maps@.len() ==> #[trigger] map_manager.loaded_maps@[q]
                    == old_mm.loaded_maps@[q],
            forall|q: int|
                #![trigger map_manager.loaded_maps@[q]]
                0 <= q < j ==> {
                    &&& map_manager.loaded_maps@[q].path == old_mm.loaded_maps@[q].path
                    &&& map_manager.loaded_maps@[q].grid_entity == old_mm.loaded_maps@[q].grid_entity
                    &&& map_manager.loaded_maps@[q].collider_entities
                        == old_mm.loaded_maps@[q].collider_entities
                    &&& layer_z_set(
                        old_mm.loaded_maps@[q].layer_entities@,
                        map_manager.loaded_maps@[q].layer_entities@,
                        e,
                        z,
                    )
                },
        decreases old_mm.loaded_maps@.len() - j,
    {
        let found = find_layer(&map_manager.loaded_maps[j].layer_entities, e);
        let ghost before = map_manager.loaded_maps@[j as int].layer_entities@;
        if let Some(k) = found {
            map_manager.loaded_maps[j].layer_entities[k].z_order = z;
        }
        proof {
            let after = map_manager.loaded_maps@[j as int].layer_entities@;
            assert forall|q: int| 0 <= q < before.len() implies #[trigger] after[q].z_order == (if before[q].entity == e
                && is_first_of(before, q) {
                z
            } else {
                before[q].z_order
            }) by {
                if let Some(k) = found {
                    if q < k {
                        assert(before[q].entity != e);
                    } else if q > k {
                        if before[q].entity == e {
                            assert(before[k as int].entity == before[q].entity);
                            assert(!is_first_of(before, q));
                        }
                    }
                }
            }
        }
        j += 1;
    }
    proof {
        let new_mm = *map_manager;
        assert forall|a: int, b: int| 0 <= a < b < new_mm.loaded_maps@.len()
            implies new_mm.loaded_maps@[a].path@ != new_mm.loaded_maps@[b].path@ by {
            assert(new_mm.loaded_maps@[a].path == old_mm.loaded_maps@[a].path);
            assert(new_mm.loaded_maps@[b].path == old_mm.loaded_maps@[b].path);
        }
    }
}


/// Layer that is being dragged in the layer list: its place in the top-down
/// list and its entity. The pointer positions stay with the widget that draws
/// the list.
pub struct DragState {
    /// Place of the dragged layer in the top-down list.
    pub dragging_index: usize,
    /// Entity of the dragged layer.
    pub entity: Entity,
}

/// Panel that reorders the layers of one loaded map.
pub struct LayerOrderingPanel {
    /// Path of the map whose layers are ordered.
    pub selected_map: Option<String>,
    /// The drag in progress, if any.
    pub drag_state: Option<DragState>,
}

/// Lowest Z-Order that moving a layer down reaches.
pub const MIN_Z_ORDER: i32 = -100;

impl LayerOrderingPanel {
    /// The drag in progress, as (place in the top-down list, entity).
    pub open spec fn dragging(&self) -> Option<(usize, Entity)> {
        match self.drag_state {
            Some(d) => Some((d.dragging_index, d.entity)),
            None => None,
        }
    }

    /// A panel with no map selected and no drag in progress.
    pub fn new() -> (p: Self)
        ensures
            p.selected_map is None,
            p.dragging() is None,
    {
        LayerOrderingPanel { selected_map: None, drag_state: None }
    }

    /// Starts dragging the layer at `index` of the top-down list, unless a
    /// drag is already in progress.
    pub fn start_drag(&mut self, index: usize, entity: Entity)
        ensures
            final(self).selected_map == old(self).selected_map,
            final(self).dragging() == (if old(self).dragging() is None {
                Some((index, entity))
            } else {
                old(self).dragging()
            }),
    {
        if self.drag_state.is_none() {
            self.drag_state = Some(DragState { dragging_index: index, entity });
        }
    }

    /// Whether the layer of `entity` is the one being dragged.
    pub fn is_dragging(&self, entity: Entity) -> (b: bool)
        ensures
            b == (self.dragging() matches Some(d) && d.1 == entity),
    {
        match &self.drag_state {
            Some(d) => d.entity == entity,
            None => false,
        }
    }

    /// Place in the top-down list where the dragged layer is dropped, given
    /// how many rows the pointer moved (`index_change`, rounded) and how many
    /// layers the list has: the dragged place moved by `index_change`, kept
    /// within the list. Without a drag in progress the result is 0.
    pub fn calculate_drop_index(&self, index_change: i32, layer_count: usize) -> (r: usize)
        requires
            layer_count as i32 != i32::MIN,
            self.dragging() matches Some(d) ==> i32::MIN <= (d.0 as i32) + index_change
                <= i32::MAX,
        ensures
            r == (match self.dragging() {
                Some(d) => clamp_drop(d.0 as i32 + index_change, layer_count as i32 - 1) as usize,
                None => 0,
            }),
    {
        match &self.drag_state {
            Some(d) => {
                let moved: i32 = d.dragging_index as i32 + index_change;
                let last: i32 = layer_count as i32 - 1;
                let lowered: i32 = if moved < 0 {
                    0
                } else {
                    moved
                };
                let clamped: i32 = if lowered > last {
                    last
                } else {
                    lowered
                };
                clamped as usize
            },
            None => 0,
        }
    }

    /// Ends the drag of the layer at `index` of the top-down list, dropping it
    /// at `drop_index`: the layers are reordered when the two places differ.
    pub fn finish_drag(
        &mut self,
        index: usize,
        drop_index: usize,
        tilemaps: &mut HashMap<Entity, i32>,
        map_manager: &mut MapManager,
    )
        requires
            old(map_manager).wf(),
        ensures
            final(self).dragging() is None,
            final(self).selected_map == old(self).selected_map,
            final(map_manager).wf(),
            reorder_outcome(
                old(self).selected_map,
                *old(map_manager),
                *final(map_manager),
                old(tilemaps)@,
                final(tilemaps)@,
                index,
                drop_index,
            ),
    {
        if drop_index != index {
            self.reorder_layers(index, drop_index, tilemaps, map_manager);
        }
        self.drag_state = None;
    }

    /// Raises the Z-Order of the tilemap of `entity` by one, in the world and
    /// on its first layer in every loaded map; nothing happens when the world has no tilemap for
    /// `entity`.
    pub fn move_layer_up(
        &mut self,
        entity: Entity,
        tilemaps: &mut HashMap<Entity, i32>,
        map_manager: &mut MapManager,
    )
        requires
            old(map_manager).wf(),
            old(tilemaps)@.contains_key(entity) ==> old(tilemaps)@[entity] < i32::MAX,
        ensures
            *final(self) == *old(self),
            final(map_manager).wf(),
            layer_moved_up(old(tilemaps)@, final(tilemaps)@, *old(map_manager), *final(map_manager), entity),
    {
        let current = tilemaps.get(&entity);
        if let Some(z) = current {
            let new_z: i32 = *z + 1;
            tilemaps.insert(entity, new_z);
            set_layer_z_in_all_maps(map_manager, entity, new_z);
        }
    }

    /// Lowers the Z-Order of the tilemap of `entity` by one, in the world and
    /// on its first layer in every loaded map, unless it is already at [`MIN_Z_ORDER`] or below;
    /// nothing happens when the world has no tilemap for `entity`.
    pub fn move_layer_down(
        &mut self,
        entity: Entity,
        tilemaps: &mut HashMap<Entity, i32>,
        map_manager: &mut MapManager,
    )
        requires
            old(map_manager).wf(),
        ensures
            *final(self) == *old(self),
            final(map_manager).wf(),
            layer_moved_down(old(tilemaps)@, final(tilemaps)@, *old(map_manager), *final(map_manager), entity),
    {
        let current = tilemaps.get(&entity);
        if let Some(z) = current {
            if *z > MIN_Z_ORDER {
                let new_z: i32 = *z - 1;
                tilemaps.insert(entity, new_z);
                set_layer_z_in_all_maps(map_manager, entity, new_z);
            }
        }
    }
}

/// `v` raised to 0 and then lowered to `last`.
pub open spec fn clamp_drop(v: int, last: int) -> int {
    let lowered = if v < 0 {
        0
    } else {
        v
    };
    if lowered > last {
        last
    } else {
        lowered
    }
}

impl Default for LayerOrderingPanel {
    fn default() -> (p: Self)
        ensures
            p.selected_map is None,
            p.dragging() is None,
    {
        Self::new()
    }
}


/// Position of the loaded map registered under `path`, if any.
fn find_loaded_map(map_manager: &MapManager, path: &String) -> (r: Option<usize>)
    ensures
        match r {
            Some(i) => i < map_manager.loaded_maps@.len() && map_manager.loaded_maps@[i as int].path@
                == path@,
            None => forall|i: int|
                0 <= i < map_manager.loaded_maps@.len() ==> map_manager.loaded_maps@[i].path@
                    != path@,
        },
{
    let mut i: usize = 0;
    while i < map_manager.loaded_maps.len()
        invariant
            i <= map_manager.loaded_maps@.len(),
            forall|q: int| 0 <= q < i ==> map_manager.loaded_maps@[q].path@ != path@,
        decreases map_manager.loaded_maps@.len() - i,
    {
        if map_manager.loaded_maps[i].path == *path {
            return Some(i);
        }
        i += 1;
    }
    None
}

/// The top-down order after taking the layer at place `from` out and putting
/// it back at place `to`.
pub open spec fn moved_order(order: Seq<usize>, from: int, to: int) -> Seq<usize> {
    order.remove(from).insert(to, order[from])
}

/// A sequence that lists distinct places below `n`.
pub open spec fn distinct_below(s: Seq<usize>, n: nat) -> bool {
    &&& forall|i: int| 0 <= i < s.len() ==> #[trigger] s[i] < n
    &&& forall|i: int, j: int| 0 <= i < s.len() && 0 <= j < s.len() && i != j ==> s[i] != s[j]
}

/// The loaded map that a reorder of places `from` and `to` works on: the one
/// registered under the selected path, provided the two places differ and both
/// lie within its layer list.
pub open spec fn reorder_target(
    selected: Option<String>,
    mm: MapManager,
    from: usize,
    to: usize,
) -> Option<int> {
    if from == to {
        None
    } else {
        match selected {
            None => None,
            Some(p) => if exists|i: int|
                0 <= i < mm.loaded_maps@.len() && mm.loaded_maps@[i].path@ == p@ {
                let i = choose|i: int| 0 <= i < mm.loaded_maps@.len() && mm.loaded_maps@[i].path@ == p@;
                let n = mm.loaded_maps@[i].layer_entities@.len();
                if from < n && to < n {
                    Some(i)
                } else {
                    None
                }
            } else {
                None
            },
        }
    }
}

/// The last of the first `i` places of `m` whose layer has entity `e`, or
/// -1 when there is none.
pub open spec fn last_place(layers: Seq<LayerInfo>, m: Seq<usize>, e: Entity, i: int) -> int
    decreases i,
{
    if i <= 0 {
        -1
    } else if layers[m[i - 1] as int].entity == e {
        i - 1
    } else {
        last_place(layers, m, e, i - 1)
    }
}

/// The Z-Order that place `p` of the top-down order `m` stands for:
/// `m.len() - 1` at the top down to 0.
pub open spec fn place_z(m: Seq<usize>, p: int) -> i32 {
    (m.len() - 1 - p) as i32
}

/// The Z-Order of the layer at `k` once the first `i` places of `m` are
/// renumbered: each place gives its number to the first layer of the entity
/// listed there, so the first layer of an entity ends with the number of
/// the last place so far that lists that entity; every other layer keeps
/// its Z-Order.
pub open spec fn renumbered_z(layers: Seq<LayerInfo>, m: Seq<usize>, k: int, i: int) -> i32 {
    let p = last_place(layers, m, layers[k].entity, i);
    if is_first_of(layers, k) && p >= 0 {
        place_z(m, p)
    } else {
        layers[k].z_order
    }
}

/// The Z-Order of the tilemap of `e` once the first `i` places of `m` are
/// renumbered: that of the last place so far that lists `e`, or the one it
/// had.
pub open spec fn renumbered_tilemap_z(
    layers: Seq<LayerInfo>,
    m: Seq<usize>,
    tm: Map<Entity, i32>,
    e: Entity,
    i: int,
) -> i32 {
    let p = last_place(layers, m, e, i);
    if p >= 0 {
        place_z(m, p)
    } else {
        tm[e]
    }
}

/// The world's tilemaps after renumbering along `m`: the same entities, each
/// with its [`renumbered_tilemap_z`].
pub open spec fn renumbered_tilemaps(
    old_tm: Map<Entity, i32>,
    new_tm: Map<Entity, i32>,
    layers: Seq<LayerInfo>,
    m: Seq<usize>,
) -> bool {
    &&& new_tm.dom() == old_tm.dom()
    &&& forall|e: Entity|
        old_tm.contains_key(e) ==> #[trigger] new_tm[e] == renumbered_tilemap_z(
            layers,
            m,
            old_tm,
            e,
            m.len() as int,
        )
}

/// Map `i` of the registry had its layers renumbered along the top-down order
/// `m`, in the map and in the world: place `q` of `m` stands for Z-Order
/// `m.len() - 1 - q`, given to the first layer of the entity listed there and
/// to that entity's tilemap (see [`renumbered_z`]). Nothing else changes.
pub open spec fn reordered(
    old_mm: MapManager,
    new_mm: MapManager,
    old_tm: Map<Entity, i32>,
    new_tm: Map<Entity, i32>,
    i: int,
    m: Seq<usize>,
) -> bool {
    let old_layers = old_mm.loaded_maps@[i].layer_entities@;
    let new_layers = new_mm.loaded_maps@[i].layer_entities@;
    &&& same_layers_but_z(old_layers, new_layers)
    &&& forall|k: int|
        0 <= k < old_layers.len() ==> #[trigger] new_layers[k].z_order == renumbered_z(
            old_layers,
            m,
            k,
            m.len() as int,
        )
    &&& renumbered_tilemaps(old_tm, new_tm, old_layers, m)
    &&& new_mm.loaded_maps@.len() == old_mm.loaded_maps@.len()
    &&& forall|j: int|
        0 <= j < old_mm.loaded_maps@.len() && j != i ==> #[trigger] new_mm.loaded_maps@[j]
            == old_mm.loaded_maps@[j]
    &&& new_mm.loaded_maps@[i].path == old_mm.loaded_maps@[i].path
    &&& new_mm.loaded_maps@[i].grid_entity == old_mm.loaded_maps@[i].grid_entity
    &&& new_mm.loaded_maps@[i].collider_entities == old_mm.loaded_maps@[i].collider_entities
    &&& new_mm.available_files == old_mm.available_files
    &&& new_mm.selected_map == old_mm.selected_map
    &&& new_mm.collision_value == old_mm.collision_value
    &&& new_mm.auto_regenerate_colliders == old_mm.auto_regenerate_colliders
}

/// What moving the layer at place `from` of the top-down list to place `to`
/// does: on the selected map (see [`reorder_target`]) the layers are taken in
/// top-down order, the moved one is put at its new place, and the Z-Orders are
/// renumbered from the top down; otherwise nothing changes.
pub open spec fn reorder_outcome(
    selected: Option<String>,
    old_mm: MapManager,
    new_mm: MapManager,
    old_tm: Map<Entity, i32>,
    new_tm: Map<Entity, i32>,
    from: usize,
    to: usize,
) -> bool {
    match reorder_target(selected, old_mm, from, to) {
        None => new_mm == old_mm && new_tm == old_tm,
        Some(i) => exists|order: Seq<usize>|
            #[trigger] is_z_desc_order(z_orders(old_mm.loaded_maps@[i].layer_entities@), order) && reordered(
                old_mm,
                new_mm,
                old_tm,
                new_tm,
                i,
                moved_order(order, from as int, to as int),
            ),
    }
}

/// A top-down order lists distinct places of the layer list.
proof fn lemma_order_distinct(zs: Seq<i32>, order: Seq<usize>)
    requires
        is_z_desc_order(zs, order),
    ensures
        distinct_below(order, zs.len()),
{
    assert forall|i: int, j: int|
        0 <= i < order.len() && 0 <= j < order.len() && i != j implies order[i] != order[j] by {
        if i < j {
            assert(listed_before(zs, order[i], order[j]));
        } else {
            assert(listed_before(zs, order[j], order[i]));
        }
    }
}

/// Moving one entry of a list of distinct places keeps the places distinct.
proof fn lemma_moved_distinct(order: Seq<usize>, n: nat, from: int, to: int)
    requires
        distinct_below(order, n),
        order.len() == n,
        0 <= from < n,
        0 <= to < n,
    ensures
        distinct_below(moved_order(order, from, to), n),
        moved_order(order, from, to).len() == n,
        forall|k: usize| order.contains(k) ==> #[trigger] moved_order(order, from, to).contains(k),
{
    let r = order.remove(from);
    let m = moved_order(order, from, to);
    assert(r.len() == n - 1);
    assert forall|i: int| 0 <= i < r.len() implies #[trigger] r[i] == order[if i < from { i } else { i + 1 }] by {}
    assert forall|i: int| 0 <= i < m.len() implies #[trigger] m[i] == (if i < to { r[i] } else if i == to { order[from] } else { r[i - 1] }) by {}
    assert forall|i: int, j: int| 0 <= i < m.len() && 0 <= j < m.len() && i != j implies m[i] != m[j] by {
        let oi = if i < to { if i < from { i } else { i + 1 } } else if i == to { from } else { if i - 1 < from { i - 1 } else { i } };
        let oj = if j < to { if j < from { j } else { j + 1 } } else if j == to { from } else { if j - 1 < from { j - 1 } else { j } };
        assert(m[i] == order[oi]);
        assert(m[j] == order[oj]);
    }
    assert forall|k: usize| order.contains(k) implies #[trigger] m.contains(k) by {
        let j = choose|j: int| 0 <= j < order.len() && order[j] == k;
        if j == from {
            assert(m[to] == k);
        } else {
            let jr = if j < from { j } else { j - 1 };
            assert(r[jr] == k);
            if jr < to {
                assert(m[jr] == k);
            } else {
                assert(m[jr + 1] == k);
            }
        }
    }
}

/// Setting the Z-Order of the layers of `e` twice is setting it once to the
/// second value.
pub proof fn lemma_maps_layer_z_set_twice(
    a: MapManager,
    b: MapManager,
    c: MapManager,
    e: Entity,
    z1: i32,
    z2: i32,
)
    requires
        maps_layer_z_set(a, b, e, z1),
        maps_layer_z_set(b, c, e, z2),
    ensures
        maps_layer_z_set(a, c, e, z2),
{
    assert forall|j: int| 0 <= j < a.loaded_maps@.len() implies {
        &&& #[trigger] c.loaded_maps@[j].path == a.loaded_maps@[j].path
        &&& c.loaded_maps@[j].grid_entity == a.loaded_maps@[j].grid_entity
        &&& c.loaded_maps@[j].collider_entities == a.loaded_maps@[j].collider_entities
        &&& layer_z_set(a.loaded_maps@[j].layer_entities@, c.loaded_maps@[j].layer_entities@, e, z2)
    } by {
        let la = a.loaded_maps@[j].layer_entities@;
        let lb = b.loaded_maps@[j].layer_entities@;
        let lc = c.loaded_maps@[j].layer_entities@;
        assert(layer_z_set(la, lb, e, z1));
        assert(layer_z_set(lb, lc, e, z2));
        assert forall|k: int| 0 <= k < la.len() implies {
            &&& #[trigger] lc[k].entity == la[k].entity
            &&& lc[k].name == la[k].name
            &&& lc[k].visible == la[k].visible
            &&& lc[k].size == la[k].size
            &&& lc[k].z_order == (if la[k].entity == e && is_first_of(la, k) { z2 } else { la[k].z_order })
        } by {
            assert(lb[k].entity == la[k].entity);
            lemma_same_first(la, lb, k);
        }
    }
}

/// Raising a layer and then lowering it gives its tilemap back its Z-Order,
/// and its layers in the loaded maps that Z-Order too, when it lies between
/// [`MIN_Z_ORDER`] and the largest Z-Order less one.
pub proof fn lemma_move_up_then_down(
    tm0: Map<Entity, i32>,
    tm1: Map<Entity, i32>,
    tm2: Map<Entity, i32>,
    mm0: MapManager,
    mm1: MapManager,
    mm2: MapManager,
    e: Entity,
)
    requires
        tm0.contains_key(e),
        MIN_Z_ORDER <= tm0[e] < i32::MAX,
        layer_moved_up(tm0, tm1, mm0, mm1, e),
        layer_moved_down(tm1, tm2, mm1, mm2, e),
    ensures
        tm2 == tm0,
        maps_layer_z_set(mm0, mm2, e, tm0[e]),
{
    let z = tm0[e];
    assert(tm1[e] == z + 1);
    lemma_maps_layer_z_set_twice(mm0, mm1, mm2, e, (z + 1) as i32, z);
    assert(tm2 =~= tm0);
}

/// Lowering a layer never takes its Z-Order below [`MIN_Z_ORDER`].
pub proof fn lemma_move_down_floor(
    tm0: Map<Entity, i32>,
    tm1: Map<Entity, i32>,
    mm0: MapManager,
    mm1: MapManager,
    e: Entity,
)
    requires
        tm0.contains_key(e),
        tm0[e] >= MIN_Z_ORDER,
        layer_moved_down(tm0, tm1, mm0, mm1, e),
    ensures
        tm1.contains_key(e),
        tm1[e] >= MIN_Z_ORDER,
{
}

/// Two top-down orders of the same Z-Orders agree on their first `i` places.
proof fn lemma_z_orders_agree_upto(zs: Seq<i32>, o1: Seq<usize>, o2: Seq<usize>, i: int)
    requires
        is_z_desc_order(zs, o1),
        is_z_desc_order(zs, o2),
        0 <= i <= o1.len(),
    ensures
        forall|j: int| 0 <= j < i ==> o1[j] == o2[j],
    decreases i,
{
    if i > 0 {
        lemma_z_orders_agree_upto(zs, o1, o2, i - 1);
        let m = i - 1;
        let a = o1[m];
        let b = o2[m];
        if a != b {
            assert(o1.contains(b));
            assert(o2.contains(a));
            let p = choose|p: int| 0 <= p < o1.len() && o1[p] == b;
            let q = choose|q: int| 0 <= q < o2.len() && o2[q] == a;
            if p < m {
                assert(o2[p] == b);
                assert(listed_before(zs, o2[p], o2[m]));
            } else if q < m {
                assert(o1[q] == a);
                assert(listed_before(zs, o1[q], o1[m]));
            } else {
                assert(p != m && q != m);
                assert(listed_before(zs, o1[m], o1[p]));
                assert(listed_before(zs, o2[m], o2[q]));
            }
        }
    }
}

/// The top-down order of a list of Z-Orders is unique.
pub proof fn lemma_z_desc_order_unique(zs: Seq<i32>, o1: Seq<usize>, o2: Seq<usize>)
    requires
        is_z_desc_order(zs, o1),
        is_z_desc_order(zs, o2),
    ensures
        o1 == o2,
{
    lemma_z_orders_agree_upto(zs, o1, o2, o1.len() as int);
    assert(o1 =~= o2);
}

/// The last place up to `i` that lists entity `e` is `q` when `q` lists it
/// and no later place before `i` does.
pub proof fn lemma_last_place_is(layers: Seq<LayerInfo>, m: Seq<usize>, e: Entity, q: int, i: int)
    requires
        0 <= q < i <= m.len(),
        layers[m[q] as int].entity == e,
        forall|p: int| q < p < i ==> #[trigger] layers[m[p] as int].entity != e,
    ensures
        last_place(layers, m, e, i) == q,
    decreases i,
{
    if i - 1 > q {
        lemma_last_place_is(layers, m, e, q, i - 1);
    }
}

/// After a reorder on the selected map, its top-down layer list is the list
/// before with the dragged layer taken from place `from` and put at place
/// `to`; the Z-Orders then fall from the top of the list to its bottom, so
/// no two layers share one. Stated for maps of at most `i32::MAX` layers,
/// whose new Z-Orders fit an `i32`, and in which no entity has two layers:
/// only the first layer of an entity is renumbered.
pub proof fn lemma_reorder_shows_moved_list(
    selected: Option<String>,
    old_mm: MapManager,
    new_mm: MapManager,
    old_tm: Map<Entity, i32>,
    new_tm: Map<Entity, i32>,
    from: usize,
    to: usize,
    old_order: Seq<usize>,
    new_order: Seq<usize>,
)
    requires
        old_mm.wf(),
        reorder_outcome(selected, old_mm, new_mm, old_tm, new_tm, from, to),
        reorder_target(selected, old_mm, from, to) is Some,
        old_mm.loaded_maps@[reorder_target(selected, old_mm, from, to)->0].layer_entities@.len() <= i32::MAX,
        old_mm.loaded_maps@[reorder_target(selected, old_mm, from, to)->0].layers_unique(),
        is_z_desc_order(
            z_orders(old_mm.loaded_maps@[reorder_target(selected, old_mm, from, to)->0].layer_entities@),
            old_order,
        ),
        is_z_desc_order(
            z_orders(new_mm.loaded_maps@[reorder_target(selected, old_mm, from, to)->0].layer_entities@),
            new_order,
        ),
    ensures
        new_order == moved_order(old_order, from as int, to as int),
        new_order[to as int] == old_order[from as int],
        forall|a: int, b: int|
            0 <= a < b < new_order.len() ==> z_orders(
                new_mm.loaded_maps@[reorder_target(selected, old_mm, from, to)->0].layer_entities@,
            )[#[trigger] new_order[a] as int] > z_orders(
                new_mm.loaded_maps@[reorder_target(selected, old_mm, from, to)->0].layer_entities@,
            )[#[trigger] new_order[b] as int],
{
    let i = reorder_target(selected, old_mm, from, to)->0;
    let old_layers = old_mm.loaded_maps@[i].layer_entities@;
    let new_layers = new_mm.loaded_maps@[i].layer_entities@;
    let n = old_layers.len();
    let order = choose|order: Seq<usize>|
        #[trigger] is_z_desc_order(z_orders(old_layers), order) && reordered(
            old_mm,
            new_mm,
            old_tm,
            new_tm,
            i,
            moved_order(order, from as int, to as int),
        );
    lemma_z_desc_order_unique(z_orders(old_layers), order, old_order);
    let m = moved_order(order, from as int, to as int);
    lemma_order_distinct(z_orders(old_layers), order);
    lemma_moved_distinct(order, n, from as int, to as int);
    let nz = z_orders(new_layers);
    assert(new_layers.len() == n);
    assert(old_mm.loaded_maps@[i].layers_unique());
    assert forall|q: int| 0 <= q < m.len() implies #[trigger] new_layers[m[q] as int].z_order == (m.len()
        - 1 - q) as i32 by {
        let k = m[q] as int;
        let e = old_layers[k].entity;
        assert forall|p: int| q < p < m.len() implies #[trigger] old_layers[m[p] as int].entity != e by {
            assert(m[p] != m[q]);
        }
        lemma_last_place_is(old_layers, m, e, q, m.len() as int);
        assert(new_layers[k].z_order == renumbered_z(old_layers, m, k, m.len() as int));
    }
    assert forall|a: int, b: int| 0 <= a < b < m.len() implies #[trigger] listed_before(nz, m[a], m[b])
        && nz[m[a] as int] > nz[m[b] as int] by {
        assert(new_layers[m[a] as int].z_order == (m.len() - 1 - a) as i32);
        assert(new_layers[m[b] as int].z_order == (m.len() - 1 - b) as i32);
    }
    assert forall|k: usize| k < nz.len() implies #[trigger] m.contains(k) by {
        assert(order.contains(k));
    }
    assert(is_z_desc_order(nz, m));
    lemma_z_desc_order_unique(nz, m, new_order);
}

impl LayerOrderingPanel {
    /// Moves the layer at place `from` of the top-down list of the selected
    /// map to place `to`, then renumbers the list from `n - 1` at the top down
    /// to 0: each place's number goes to the first layer of the entity listed
    /// there, in the map, and to that entity's tilemap in the world (see
    /// [`reorder_outcome`]).
    pub fn reorder_layers(
        &mut self,
        from_index: usize,
        to_index: usize,
        tilemaps: &mut HashMap<Entity, i32>,
        map_manager: &mut MapManager,
    )
        requires
            old(map_manager).wf(),
        ensures
            *final(self) == *old(self),
            final(map_manager).wf(),
            reorder_outcome(
                old(self).selected_map,
                *old(map_manager),
                *final(map_manager),
                old(tilemaps)@,
                final(tilemaps)@,
                from_index,
                to_index,
            ),
    {
        if from_index == to_index {
            return;
        }
        let selected = match &self.selected_map {
            Some(p) => p,
            None => return,
        };
        let mi = match find_loaded_map(map_manager, selected) {
            Some(i) => i,
            None => return,
        };
        let ghost old_mm = *map_manager;
        let ghost old_tm = tilemaps@;
        let ghost old_layers = old_mm.loaded_maps@[mi as int].layer_entities@;
        proof {
            let c = choose|i: int| 0 <= i < old_mm.loaded_maps@.len() && old_mm.loaded_maps@[i].path@ == selected@;
            assert(c == mi as int);
        }
        let order = layer_display_order(&map_manager.loaded_maps[mi].layer_entities);
        let n = order.len();
        if from_index >= n || to_index >= n {
            return;
        }
        let ghost order_seq = order@;
        let mut moved = order;
        let x = moved.remove(from_index);
        moved.insert(to_index, x);
        proof {
            lemma_order_distinct(z_orders(old_layers), order_seq);
            lemma_moved_distinct(order_seq, n as nat, from_index as int, to_index as int);
            assert(moved@ == moved_order(order_seq, from_index as int, to_index as int));
        }
        let mut i: usize = 0;
        while i < n
            invariant
                old_mm.wf(),
                mi < old_mm.loaded_maps@.len(),
                old_layers == old_mm.loaded_maps@[mi as int].layer_entities@,
                n == old_layers.len(),
                moved@.len() == n,
                distinct_below(moved@, n as nat),
                i <= n,
                map_manager.loaded_maps@.len() == old_mm.loaded_maps@.len(),
                forall|j: int|
                    0 <= j < old_mm.loaded_maps@.len() && j != mi ==> #[trigger] map_manager.loaded_maps@[j]
                        == old_mm.loaded_maps@[j],
                map_manager.loaded_maps@[mi as int].path == old_mm.loaded_maps@[mi as int].path,
                map_manager.loaded_maps@[mi as int].grid_entity == old_mm.loaded_maps@[mi as int].grid_entity,
                map_manager.loaded_maps@[mi as int].collider_entities
                    == old_mm.loaded_maps@[mi as int].collider_entities,
                map_manager.available_files == old_mm.available_files,
                map_manager.selected_map == old_mm.selected_map,
                map_manager.collision_value == old_mm.collision_value,
                map_manager.auto_regenerate_colliders == old_mm.auto_regenerate_colliders,
                same_layers_but_z(old_layers, map_manager.loaded_maps@[mi as int].layer_entities@),
                forall|k: int|
                    0 <= k < n ==> #[trigger] map_manager.loaded_maps@[mi as int].layer_entities@[k].z_order
                        == renumbered_z(old_layers, moved@, k, i as int),
                tilemaps@.dom() == old_tm.dom(),
                forall|ee: Entity|
                    old_tm.contains_key(ee) ==> #[trigger] tilemaps@[ee] == renumbered_tilemap_z(
                        old_layers,
                        moved@,
                        old_tm,
                        ee,
                        i as int,
                    ),
            decreases n - i,
        {
            let k = moved[i];
            let e = map_manager.loaded_maps[mi].layer_entities[k].entity;
            assert(e == old_layers[k as int].entity);
            #[verifier::truncate]
            let z: i32 = (n - 1 - i) as i32;
            proof {
                assert(z == place_z(moved@, i as int));
            }
            let ghost before_tm = tilemaps@;
            if tilemaps.contains_key(&e) {
                tilemaps.insert(e, z);
            }
            let found = find_layer(&map_manager.loaded_maps[mi].layer_entities, e);
            let ghost before_layers = map_manager.loaded_maps@[mi as int].layer_entities@;
            if let Some(kk) = found {
                map_manager.loaded_maps[mi].layer_entities[kk].z_order = z;
            }
            proof {
                let cur = map_manager.loaded_maps@[mi as int].layer_entities@;
                assert forall|q: int| 0 <= q < n implies #[trigger] cur[q].z_order == renumbered_z(
                    old_layers,
                    moved@,
                    q,
                    i + 1,
                ) by {
                    assert(before_layers[q].entity == old_layers[q].entity);
                    if old_layers[q].entity == e {
                        assert(last_place(old_layers, moved@, e, i + 1) == i);
                        if let Some(kk) = found {
                            assert(before_layers[kk as int].entity == e);
                            assert(old_layers[kk as int].entity == e);
                            if q == kk {
                                assert forall|j: int| 0 <= j < q implies old_layers[j].entity
                                    != old_layers[q].entity by {
                                    assert(before_layers[j].entity == old_layers[j].entity);
                                }
                            } else if q < kk {
                                assert(before_layers[q].entity != e);
                            } else {
                                assert(!is_first_of(old_layers, q)) by {
                                    assert(old_layers[kk as int].entity == old_layers[q].entity);
                                }
                            }
                        } else {
                            assert(before_layers[q].entity != e);
                        }
                    } else {
                        assert(last_place(old_layers, moved@, old_layers[q].entity, i + 1) == last_place(
                            old_layers,
                            moved@,
                            old_layers[q].entity,
                            i as int,
                        ));
                    }
                }
                assert forall|ee: Entity| old_tm.contains_key(ee) implies #[trigger] tilemaps@[ee]
                    == renumbered_tilemap_z(old_layers, moved@, old_tm, ee, i + 1) by {
                    if ee == e {
                        assert(last_place(old_layers, moved@, e, i + 1) == i);
                    } else {
                        assert(last_place(old_layers, moved@, ee, i + 1) == last_place(
                            old_layers,
                            moved@,
                            ee,
                            i as int,
                        ));
                    }
                }
            }
            i += 1;
        }
        proof {
            let new_mm = *map_manager;
            assert forall|a: int, b: int| 0 <= a < b < new_mm.loaded_maps@.len()
                implies new_mm.loaded_maps@[a].path@ != new_mm.loaded_maps@[b].path@ by {
                assert(new_mm.loaded_maps@[a].path == old_mm.loaded_maps@[a].path);
                assert(new_mm.loaded_maps@[b].path == old_mm.loaded_maps@[b].path);
            }
            let i = reorder_target(self.selected_map, old_mm, from_index, to_index)->0;
            assert(i == mi as int);
            assert(is_z_desc_order(z_orders(old_mm.loaded_maps@[i].layer_entities@), order_seq) && reordered(
                old_mm,
                new_mm,
                old_tm,
                tilemaps@,
                i,
                moved_order(order_seq, from_index as int, to_index as int),
            ));
        }
    }
}

} // verus!
