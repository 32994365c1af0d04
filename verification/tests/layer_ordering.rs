use engine::layer_ordering::{layer_display_order, LayerOrderingPanel, MIN_Z_ORDER};
use engine::map_manager::{LayerInfo, LoadedMap, MapManager};
use std::collections::HashMap;

fn layer(entity: u64, z: i32) -> LayerInfo {
    LayerInfo { entity, name: format!("LDTK Layer: L{}", entity), z_order: z, visible: true, size: (16, 16) }
}

fn manager_with(layers: Vec<LayerInfo>) -> MapManager {
    let mut m = MapManager::new();
    m.loaded_maps.push(LoadedMap {
        path: "levels/world.ldtk".to_string(),
        grid_entity: 100,
        layer_entities: layers,
        collider_entities: vec![],
    });
    m
}

fn z_of(m: &MapManager, e: u64) -> i32 {
    m.loaded_maps[0].layer_entities.iter().find(|l| l.entity == e).unwrap().z_order
}

#[test]
fn display_order_top_down_stable() {
    let layers = vec![layer(1, 0), layer(2, 5), layer(3, 0), layer(4, 2)];
    assert_eq!(layer_display_order(&layers), vec![1, 3, 0, 2]);
}

#[test]
fn drag_lifecycle() {
    let mut p = LayerOrderingPanel::new();
    assert!(p.selected_map.is_none());
    assert!(!p.is_dragging(7));
    assert_eq!(p.calculate_drop_index(3, 5), 0);
    p.start_drag(1, 7);
    assert!(p.is_dragging(7));
    p.start_drag(3, 8);
    assert!(p.is_dragging(7));
    assert!(!p.is_dragging(8));
    assert_eq!(p.calculate_drop_index(2, 5), 3);
    assert_eq!(p.calculate_drop_index(10, 5), 4);
    assert_eq!(p.calculate_drop_index(-5, 5), 0);
    let d = LayerOrderingPanel::default();
    assert!(!d.is_dragging(7));
}

#[test]
fn reorder_renumbers_top_down() {
    // top-down: 2 (z 5), 4 (z 2), 1 (z 0), 3 (z 0)
    let mut m = manager_with(vec![layer(1, 0), layer(2, 5), layer(3, 0), layer(4, 2)]);
    let mut tilemaps: HashMap<u64, i32> = HashMap::new();
    for (e, z) in [(1, 0), (2, 5), (3, 0), (4, 2), (99, 7)] {
        tilemaps.insert(e, z);
    }
    let mut p = LayerOrderingPanel::new();
    p.selected_map = Some("levels/world.ldtk".to_string());
    // move the top layer (entity 2) to the bottom
    p.reorder_layers(0, 3, &mut tilemaps, &mut m);
    // new top-down: 4, 1, 3, 2 -> z 3, 2, 1, 0
    assert_eq!(z_of(&m, 4), 3);
    assert_eq!(z_of(&m, 1), 2);
    assert_eq!(z_of(&m, 3), 1);
    assert_eq!(z_of(&m, 2), 0);
    assert_eq!(tilemaps[&4], 3);
    assert_eq!(tilemaps[&1], 2);
    assert_eq!(tilemaps[&3], 1);
    assert_eq!(tilemaps[&2], 0);
    assert_eq!(tilemaps[&99], 7);
    let order = layer_display_order(&m.loaded_maps[0].layer_entities);
    let entities: Vec<u64> = order.iter().map(|&i| m.loaded_maps[0].layer_entities[i].entity).collect();
    assert_eq!(entities, vec![4, 1, 3, 2]);
}

#[test]
fn reorder_needs_selection_and_places() {
    let mut m = manager_with(vec![layer(1, 0), layer(2, 1)]);
    let mut tilemaps: HashMap<u64, i32> = HashMap::new();
    tilemaps.insert(1, 0);
    tilemaps.insert(2, 1);
    let mut p = LayerOrderingPanel::new();
    p.reorder_layers(0, 1, &mut tilemaps, &mut m);
    assert_eq!(z_of(&m, 2), 1);
    p.selected_map = Some("levels/other.ldtk".to_string());
    p.reorder_layers(0, 1, &mut tilemaps, &mut m);
    assert_eq!(z_of(&m, 2), 1);
    p.selected_map = Some("levels/world.ldtk".to_string());
    p.reorder_layers(0, 5, &mut tilemaps, &mut m);
    assert_eq!(z_of(&m, 2), 1);
    p.reorder_layers(1, 1, &mut tilemaps, &mut m);
    assert_eq!(z_of(&m, 2), 1);
    p.reorder_layers(1, 0, &mut tilemaps, &mut m);
    assert_eq!(z_of(&m, 1), 1);
    assert_eq!(z_of(&m, 2), 0);
}

#[test]
fn finish_drag_reorders_and_ends_drag() {
    let mut m = manager_with(vec![layer(1, 0), layer(2, 1), layer(3, 2)]);
    let mut tilemaps: HashMap<u64, i32> = HashMap::new();
    let mut p = LayerOrderingPanel::new();
    p.selected_map = Some("levels/world.ldtk".to_string());
    p.start_drag(2, 1);
    p.finish_drag(2, 0, &mut tilemaps, &mut m);
    assert!(!p.is_dragging(1));
    assert_eq!(z_of(&m, 1), 2);
    assert_eq!(z_of(&m, 3), 1);
    assert_eq!(z_of(&m, 2), 0);
    assert!(tilemaps.is_empty());
}

#[test]
fn move_up_then_down_restores() {
    let mut m = manager_with(vec![layer(1, 4), layer(2, 0)]);
    let mut tilemaps: HashMap<u64, i32> = HashMap::new();
    tilemaps.insert(1, 4);
    let mut p = LayerOrderingPanel::new();
    p.move_layer_up(1, &mut tilemaps, &mut m);
    assert_eq!(tilemaps[&1], 5);
    assert_eq!(z_of(&m, 1), 5);
    p.move_layer_down(1, &mut tilemaps, &mut m);
    assert_eq!(tilemaps[&1], 4);
    assert_eq!(z_of(&m, 1), 4);
    assert_eq!(z_of(&m, 2), 0);
}

#[test]
fn move_down_stops_at_floor() {
    let mut m = manager_with(vec![layer(1, MIN_Z_ORDER + 1)]);
    let mut tilemaps: HashMap<u64, i32> = HashMap::new();
    tilemaps.insert(1, MIN_Z_ORDER + 1);
    let mut p = LayerOrderingPanel::new();
    p.move_layer_down(1, &mut tilemaps, &mut m);
    assert_eq!(tilemaps[&1], -100);
    p.move_layer_down(1, &mut tilemaps, &mut m);
    assert_eq!(tilemaps[&1], -100);
    assert_eq!(z_of(&m, 1), -100);
}

#[test]
fn moves_without_tilemap_do_nothing() {
    let mut m = manager_with(vec![layer(1, 3)]);
    let mut tilemaps: HashMap<u64, i32> = HashMap::new();
    let mut p = LayerOrderingPanel::new();
    p.move_layer_up(1, &mut tilemaps, &mut m);
    p.move_layer_down(1, &mut tilemaps, &mut m);
    assert_eq!(z_of(&m, 1), 3);
    assert!(tilemaps.is_empty());
}

#[test]
fn repeated_entity_first_layer_moves() {
    let mut m = manager_with(vec![layer(1, 0), layer(1, 5)]);
    let mut tilemaps: HashMap<u64, i32> = HashMap::new();
    tilemaps.insert(1, 0);
    let mut p = LayerOrderingPanel::new();
    p.move_layer_up(1, &mut tilemaps, &mut m);
    assert_eq!(tilemaps[&1], 1);
    assert_eq!(m.loaded_maps[0].layer_entities[0].z_order, 1);
    assert_eq!(m.loaded_maps[0].layer_entities[1].z_order, 5);
}

#[test]
fn repeated_entity_reorder_numbers_first_layer() {
    // top-down: place 1 (entity 1, z 5), place 2 (entity 2, z 2), place 0 (entity 1, z 0)
    let mut m = manager_with(vec![layer(1, 0), layer(1, 5), layer(2, 2)]);
    let mut tilemaps: HashMap<u64, i32> = HashMap::new();
    tilemaps.insert(1, 9);
    tilemaps.insert(2, 9);
    let mut p = LayerOrderingPanel::new();
    p.selected_map = Some("levels/world.ldtk".to_string());
    p.reorder_layers(0, 2, &mut tilemaps, &mut m);
    // moved top-down: place 2, place 0, place 1 -> numbers 2, 1, 0
    assert_eq!(m.loaded_maps[0].layer_entities[2].z_order, 2);
    assert_eq!(m.loaded_maps[0].layer_entities[0].z_order, 0);
    assert_eq!(m.loaded_maps[0].layer_entities[1].z_order, 5);
    assert_eq!(tilemaps[&1], 0);
    assert_eq!(tilemaps[&2], 2);
}
