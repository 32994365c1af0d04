use engine::texture_inspector::{TextureInspector, TextureInspectorAction};

#[derive(Debug, Clone, PartialEq)]
struct Settings {
    max_size: u32,
}

#[test]
fn new_inspector_is_empty() {
    let inspector = TextureInspector::new(Settings { max_size: 2048 });
    assert!(inspector.selected_texture.is_none());
    assert_eq!(inspector.settings, Settings { max_size: 2048 });
    assert!(!inspector.has_changes);
}

#[test]
fn set_texture_uses_loaded_settings() {
    let mut inspector = TextureInspector::new(Settings { max_size: 2048 });
    inspector.has_changes = true;
    inspector.set_texture("assets/hero.png".to_string(), Some(Settings { max_size: 512 }), Settings { max_size: 2048 });
    assert_eq!(inspector.selected_texture, Some("assets/hero.png".to_string()));
    assert_eq!(inspector.settings, Settings { max_size: 512 });
    assert!(!inspector.has_changes);
}

#[test]
fn set_texture_falls_back_to_defaults() {
    let mut inspector = TextureInspector::new(Settings { max_size: 1 });
    inspector.set_texture("a.png".to_string(), None, Settings { max_size: 2048 });
    assert_eq!(inspector.settings, Settings { max_size: 2048 });
}

#[test]
fn clear_resets() {
    let mut inspector = TextureInspector::new(Settings { max_size: 2048 });
    inspector.set_texture("a.png".to_string(), Some(Settings { max_size: 64 }), Settings { max_size: 2048 });
    inspector.note_edit(true);
    inspector.clear(Settings { max_size: 2048 });
    assert!(inspector.selected_texture.is_none());
    assert_eq!(inspector.settings, Settings { max_size: 2048 });
    assert!(!inspector.has_changes);
}

#[test]
fn edits_without_texture_change_nothing() {
    let mut inspector = TextureInspector::new(Settings { max_size: 2048 });
    inspector.note_edit(true);
    assert!(!inspector.has_changes);
    assert!(inspector.selected_texture.is_none());
}

#[test]
fn clear_twice_is_new() {
    let mut inspector = TextureInspector::new(Settings { max_size: 2048 });
    inspector.set_texture("a.png".to_string(), Some(Settings { max_size: 8 }), Settings { max_size: 2048 });
    inspector.note_edit(true);
    inspector.clear(Settings { max_size: 2048 });
    inspector.clear(Settings { max_size: 2048 });
    let fresh = TextureInspector::new(Settings { max_size: 2048 });
    assert_eq!(inspector.selected_texture, fresh.selected_texture);
    assert_eq!(inspector.settings, fresh.settings);
    assert_eq!(inspector.has_changes, fresh.has_changes);
}

#[test]
fn edits_mark_changes() {
    let mut inspector = TextureInspector::new(Settings { max_size: 2048 });
    inspector.set_texture("a.png".to_string(), None, Settings { max_size: 2048 });
    inspector.note_edit(false);
    assert!(!inspector.has_changes);
    inspector.note_edit(true);
    assert!(inspector.has_changes);
    inspector.note_edit(false);
    assert!(inspector.has_changes);
}

#[test]
fn buttons_need_changes_and_selection() {
    let mut inspector = TextureInspector::new(Settings { max_size: 2048 });
    inspector.has_changes = true;
    assert_eq!(inspector.button_action(true, false), None);
    inspector.set_texture("a.png".to_string(), None, Settings { max_size: 2048 });
    assert_eq!(inspector.button_action(true, false), None);
    inspector.note_edit(true);
    assert_eq!(inspector.button_action(true, false), Some(TextureInspectorAction::Apply));
    assert_eq!(inspector.button_action(false, true), Some(TextureInspectorAction::Revert));
    assert_eq!(inspector.button_action(true, true), Some(TextureInspectorAction::Revert));
    assert_eq!(inspector.button_action(false, false), None);
}
