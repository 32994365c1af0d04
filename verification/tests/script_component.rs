use engine::script_component::{available_scripts, entity_reference_label};

#[test]
fn lua_files_offered() {
    let files = vec![
        "player.lua".to_string(),
        "readme.md".to_string(),
        "enemy.lua".to_string(),
        "old.lua.lua".to_string(),
        "config.lua.bak".to_string(),
    ];
    assert_eq!(available_scripts(&files), vec!["player".to_string(), "enemy".to_string(), "old".to_string()]);
    assert!(available_scripts(&Vec::new()).is_empty());
}

#[test]
fn entity_reference_labels() {
    let name = "Door".to_string();
    assert_eq!(entity_reference_label(None, None), "None");
    assert_eq!(entity_reference_label(Some(12), Some(&name)), "Door (12)");
    assert_eq!(entity_reference_label(Some(12), None), "Entity 12");
}
