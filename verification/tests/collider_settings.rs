use engine::collider_settings::{
    auto_regenerate_label, collider_type_label, ColliderConfiguration, ColliderSettingsPanel, ColliderType,
};
use engine::map_manager::MapManager;

fn config(t: ColliderType, v: i64, auto: bool) -> ColliderConfiguration {
    ColliderConfiguration { collider_type: t, collision_value: v, auto_regenerate: auto }
}

#[test]
fn defaults() {
    assert_eq!(ColliderType::default(), ColliderType::Composite);
    assert_eq!(ColliderConfiguration::default(), config(ColliderType::Composite, 1, true));
    let p = ColliderSettingsPanel::new();
    assert_eq!(*p.get_configuration(), config(ColliderType::Composite, 1, true));
    assert!(!p.has_changes);
    let d = ColliderSettingsPanel::default();
    assert_eq!(d.configuration, ColliderConfiguration::default());
}

#[test]
fn with_and_set_configuration() {
    let p = ColliderSettingsPanel::with_configuration(config(ColliderType::Individual, 3, false));
    assert_eq!(*p.get_configuration(), config(ColliderType::Individual, 3, false));
    assert!(!p.has_changes);
    let mut p = ColliderSettingsPanel::new();
    p.set_configuration(config(ColliderType::Individual, 2, true));
    assert_eq!(p.configuration, config(ColliderType::Individual, 2, true));
    assert!(p.has_changes);
}

#[test]
fn apply_then_load_round_trip() {
    let mut m = MapManager::new();
    let p = ColliderSettingsPanel::with_configuration(config(ColliderType::Individual, 7, false));
    p.apply_to_map_manager(&mut m);
    assert_eq!(m.get_collision_value(), 7);
    assert!(!m.get_auto_regenerate_colliders());
    let mut q = ColliderSettingsPanel::with_configuration(config(ColliderType::Individual, 1, true));
    q.set_configuration(config(ColliderType::Individual, 1, true));
    q.load_from_map_manager(&m);
    assert_eq!(q.configuration, config(ColliderType::Individual, 7, false));
    assert!(!q.has_changes);
}

#[test]
fn labels() {
    assert_eq!(collider_type_label(ColliderType::Composite), "Composite");
    assert_eq!(collider_type_label(ColliderType::Individual), "Individual");
    assert_eq!(collider_type_label(ColliderType::Polygon), "Polygon");
    assert_eq!(auto_regenerate_label(true), "Enabled");
    assert_eq!(auto_regenerate_label(false), "Disabled");
}

#[test]
fn picking_types() {
    let mut p = ColliderSettingsPanel::new();
    p.select_collider_type(ColliderType::Composite);
    assert!(!p.has_changes);
    p.select_collider_type(ColliderType::Polygon);
    assert_eq!(p.configuration.collider_type, ColliderType::Composite);
    assert!(!p.has_changes);
    p.select_collider_type(ColliderType::Individual);
    assert_eq!(p.configuration.collider_type, ColliderType::Individual);
    assert!(p.has_changes);
}

#[test]
fn editing_values() {
    let mut p = ColliderSettingsPanel::new();
    p.edit_collision_value(1);
    assert!(!p.has_changes);
    p.edit_collision_value(4);
    assert_eq!(p.configuration.collision_value, 4);
    assert!(p.has_changes);
    let mut p = ColliderSettingsPanel::new();
    p.edit_auto_regenerate(true);
    assert!(!p.has_changes);
    p.edit_auto_regenerate(false);
    assert!(!p.configuration.auto_regenerate);
    assert!(p.has_changes);
}

#[test]
fn apply_and_reset_buttons() {
    let mut m = MapManager::new();
    let mut p = ColliderSettingsPanel::new();
    p.edit_collision_value(9);
    assert!(p.handle_action_buttons_with_apply(true, false, &mut m));
    assert_eq!(m.collision_value, 9);
    assert!(!p.has_changes);
    assert!(p.handle_action_buttons_with_apply(true, true, &mut m));
    assert_eq!(p.configuration, ColliderConfiguration::default());
    assert!(p.has_changes);
    assert_eq!(m.collision_value, 1);
    assert!(!p.handle_action_buttons_with_apply(false, false, &mut m));
}

#[test]
fn save_and_reset_buttons() {
    let mut p = ColliderSettingsPanel::new();
    p.edit_collision_value(2);
    p.handle_action_buttons(true, false);
    assert!(!p.has_changes);
    assert_eq!(p.configuration.collision_value, 2);
    p.handle_action_buttons(false, true);
    assert_eq!(p.configuration, ColliderConfiguration::default());
    assert!(p.has_changes);
}

#[test]
fn load_outcomes() {
    let mut p = ColliderSettingsPanel::new();
    assert_eq!(p.load_configuration(Ok(Some(config(ColliderType::Individual, 5, false)))), Ok(()));
    assert_eq!(p.configuration, config(ColliderType::Individual, 5, false));
    p.edit_collision_value(6);
    assert_eq!(p.load_configuration(Err("Failed to read settings".to_string())), Err("Failed to read settings".to_string()));
    assert_eq!(p.configuration.collision_value, 6);
    assert!(p.has_changes);
    assert_eq!(p.load_configuration(Ok(None)), Ok(()));
    assert_eq!(p.configuration, ColliderConfiguration::default());
    assert!(!p.has_changes);
}

#[test]
fn save_outcomes() {
    let mut p = ColliderSettingsPanel::new();
    p.edit_collision_value(6);
    assert_eq!(p.save_configuration(Err("disk full".to_string())), Err("disk full".to_string()));
    assert!(p.has_changes);
    assert_eq!(p.save_configuration(Ok(())), Ok(()));
    assert!(!p.has_changes);
}

#[test]
fn load_then_apply_keeps_registry() {
    let mut m = MapManager::new();
    m.set_collision_value(12);
    m.set_auto_regenerate_colliders(false);
    m.available_files.push("levels/a.ldtk".to_string());
    let mut p = ColliderSettingsPanel::new();
    p.load_from_map_manager(&m);
    p.apply_to_map_manager(&mut m);
    assert_eq!(m.collision_value, 12);
    assert!(!m.auto_regenerate_colliders);
    assert_eq!(m.available_files, vec!["levels/a.ldtk".to_string()]);
}

#[test]
fn collision_value_kept_in_field_range() {
    let mut p = ColliderSettingsPanel::new();
    p.edit_collision_value(300);
    assert_eq!(p.configuration.collision_value, 255);
    assert!(p.has_changes);
    let mut p = ColliderSettingsPanel::new();
    p.edit_collision_value(-5);
    assert_eq!(p.configuration.collision_value, 0);
    assert!(p.has_changes);
    let mut p = ColliderSettingsPanel::with_configuration(config(ColliderType::Composite, 255, true));
    p.edit_collision_value(1000);
    assert_eq!(p.configuration.collision_value, 255);
    assert!(!p.has_changes);
    let mut p = ColliderSettingsPanel::with_configuration(config(ColliderType::Composite, 400, true));
    p.edit_collision_value(400);
    assert_eq!(p.configuration.collision_value, 255);
    assert!(p.has_changes);
}
