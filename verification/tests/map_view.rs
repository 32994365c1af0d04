use engine::map_manager::{LoadedMap, MapManager};
use engine::map_view::{
    colliders_to_clean_up, layer_display_name, layer_order_label, ldtk_file_names, map_label, map_selector_caption,
    visibility_icon, MapViewState, NamedCollider,
};

#[test]
fn map_view_state_default_and_select() {
    let mut s = MapViewState::default();
    assert!(s.selected_map.is_none());
    assert!(s.show_layers);
    assert!(!s.is_selected("world.ldtk"));
    s.select_map("world.ldtk".to_string());
    assert!(s.is_selected("world.ldtk"));
    assert!(!s.is_selected("other.ldtk"));
    assert!(s.show_layers);
}

#[test]
fn ldtk_files_in_order() {
    let names = vec![
        "world.ldtk".to_string(),
        "notes.txt".to_string(),
        "backup.ldtk.bak".to_string(),
        "arena.ldtk".to_string(),
        ".ldtk".to_string(),
    ];
    assert_eq!(ldtk_file_names(&names), vec!["world.ldtk".to_string(), "arena.ldtk".to_string()]);
}

#[test]
fn layer_names_lose_prefix() {
    assert_eq!(layer_display_name("LDTK Layer: Ground"), "Ground");
    assert_eq!(layer_display_name("Walls"), "Walls");
    assert_eq!(layer_display_name("LDTK Layer: LDTK Layer: X"), "X");
    assert_eq!(layer_display_name("Top LDTK Layer: Y"), "Top Y");
}

#[test]
fn visibility_icons() {
    assert_eq!(visibility_icon(true), "👁");
    assert_eq!(visibility_icon(false), "👁‍🗨");
}

#[test]
fn cleanup_picks_generated_colliders() {
    let colliders = vec![
        NamedCollider { entity: 4, name: Some("Composite Collider 1".to_string()) },
        NamedCollider { entity: 7, name: Some("Player".to_string()) },
        NamedCollider { entity: 9, name: None },
        NamedCollider { entity: 2, name: Some("Collider".to_string()) },
        NamedCollider { entity: 3, name: Some("collider".to_string()) },
    ];
    assert_eq!(colliders_to_clean_up(&colliders), vec![4, 2]);
}

#[test]
fn available_files_stay_unique() {
    let mut m = MapManager::new();
    m.add_available_file("levels/a.ldtk".to_string());
    m.add_available_file("levels/b.ldtk".to_string());
    m.add_available_file("levels/a.ldtk".to_string());
    assert_eq!(m.available_files, vec!["levels/a.ldtk".to_string(), "levels/b.ldtk".to_string()]);
}

#[test]
fn selecting_unloaded_map_asks_to_load() {
    let mut m = MapManager::new();
    assert!(m.select_map("levels/a.ldtk".to_string()));
    assert_eq!(m.selected_map, Some("levels/a.ldtk".to_string()));
    assert!(!m.is_loaded("levels/a.ldtk"));
}

#[test]
fn map_labels_and_caption() {
    assert_eq!(map_label("levels/world.ldtk"), "world.ldtk");
    assert_eq!(map_label("levels/.."), "Unknown");
    assert_eq!(map_selector_caption(&None), "Select a map...");
    assert_eq!(map_selector_caption(&Some("levels/arena.ldtk".to_string())), "arena.ldtk");
    assert_eq!(layer_order_label("LDTK Layer: Ground", 3), "Ground (Z: 3)");
    assert_eq!(layer_order_label("Walls", -100), "Walls (Z: -100)");
    assert_eq!(layer_order_label("Deep", i32::MIN), format!("Deep (Z: {})", i32::MIN));
}

#[test]
fn collider_counts_per_map() {
    let mut m = MapManager::new();
    assert_eq!(m.collider_count("levels/a.ldtk"), 0);
    m.loaded_maps.push(LoadedMap {
        path: "levels/a.ldtk".to_string(),
        grid_entity: 1,
        layer_entities: vec![],
        collider_entities: vec![5, 6, 7],
    });
    assert_eq!(m.collider_count("levels/a.ldtk"), 3);
    assert_eq!(m.collider_count("levels/b.ldtk"), 0);
    assert!(m.is_loaded("levels/a.ldtk"));
    assert!(!m.select_map("levels/a.ldtk".to_string()));
}
