use engine::resources::{breadcrumbs, card_display_name, child_folder, folder_caption, opens_as_scene, parent_folder};

#[test]
fn back_goes_to_parent() {
    assert_eq!(parent_folder("sprites/characters/hero"), "sprites/characters");
    assert_eq!(parent_folder("sprites"), "");
    assert_eq!(parent_folder(""), "");
}

#[test]
fn enter_goes_to_child() {
    assert_eq!(child_folder("", "scenes"), "scenes");
    assert_eq!(child_folder("sprites", "hero"), "sprites/hero");
}

#[test]
fn back_undoes_enter() {
    for (folder, name) in [("", "scenes"), ("sprites", "hero"), ("a/b", "c")] {
        let child = child_folder(folder, name);
        assert_eq!(parent_folder(&child), folder);
    }
}

#[test]
fn crumbs_lead_to_prefixes() {
    let crumbs = breadcrumbs("sprites/characters/hero");
    assert_eq!(
        crumbs,
        vec![
            ("sprites".to_string(), "sprites".to_string()),
            ("characters".to_string(), "sprites/characters".to_string()),
            ("hero".to_string(), "sprites/characters/hero".to_string()),
        ]
    );
    assert!(breadcrumbs("").is_empty());
    assert_eq!(breadcrumbs("audio"), vec![("audio".to_string(), "audio".to_string())]);
}

#[test]
fn long_names_are_cut() {
    assert_eq!(card_display_name("short.png"), "short.png");
    assert_eq!(card_display_name("exactly15chars!"), "exactly15chars!");
    assert_eq!(card_display_name("a_very_long_file_name.png"), "a_very_long_...");
    assert_eq!(card_display_name("ääääääääääää"), "ääääää...");
}

#[test]
fn scenes_open_on_double_click() {
    assert!(opens_as_scene("level1.scene", false));
    assert!(!opens_as_scene("level1.scene", true));
    assert!(!opens_as_scene("level1.scene.bak", false));
    assert!(!opens_as_scene("hero.png", false));
}

#[test]
fn folder_captions() {
    assert_eq!(folder_caption(true, 12), "12 items");
    assert_eq!(folder_caption(true, 0), "0 items");
    assert_eq!(folder_caption(false, 3), "Empty");
}
