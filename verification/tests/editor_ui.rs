use engine::editor_ui::{EditorUI, EntityTag, EntityTraits};

fn traits() -> EntityTraits {
    EntityTraits { tag: None, has_sprite: false, has_collider: false, has_velocity: false, has_script: false }
}

#[test]
fn scene_files_filtered_and_sorted() {
    let paths = vec![
        "scenes/level2.scene".to_string(),
        "scenes/notes.txt".to_string(),
        "scenes/level1.scene".to_string(),
        "scenes/backup.scene.bak".to_string(),
    ];
    let files = EditorUI::get_scene_files(&paths);
    assert_eq!(files, vec!["scenes/level1.scene".to_string(), "scenes/level2.scene".to_string()]);
}

#[test]
fn scene_files_empty() {
    assert!(EditorUI::get_scene_files(&Vec::new()).is_empty());
    assert!(EditorUI::get_scene_files(&vec!["scenes/a.txt".to_string()]).is_empty());
}

#[test]
fn tag_decides_icon_first() {
    let e = EntityTraits { tag: Some(EntityTag::Player), has_script: true, ..traits() };
    assert_eq!(EditorUI::get_entity_icon(&e), "🎮");
    let e = EntityTraits { tag: Some(EntityTag::Item), has_sprite: true, ..traits() };
    assert_eq!(EditorUI::get_entity_icon(&e), "💎");
}

#[test]
fn component_icons() {
    let e = EntityTraits { has_script: true, has_velocity: true, has_collider: true, ..traits() };
    assert_eq!(EditorUI::get_entity_icon(&e), "📜");
    let e = EntityTraits { has_velocity: true, has_collider: true, has_sprite: true, ..traits() };
    assert_eq!(EditorUI::get_entity_icon(&e), "🏃");
    let e = EntityTraits { has_sprite: true, has_collider: true, ..traits() };
    assert_eq!(EditorUI::get_entity_icon(&e), "📦");
    let e = EntityTraits { has_sprite: true, has_velocity: true, ..traits() };
    assert_eq!(EditorUI::get_entity_icon(&e), "🖼️");
    let e = EntityTraits { has_collider: true, ..traits() };
    assert_eq!(EditorUI::get_entity_icon(&e), "⬜");
    assert_eq!(EditorUI::get_entity_icon(&traits()), "📍");
    let e = EntityTraits { has_velocity: true, ..traits() };
    assert_eq!(EditorUI::get_entity_icon(&e), "📍");
}
