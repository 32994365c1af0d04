use engine::sprite_picker::{is_sprite_file, matches_search, pick_sprite, SpritePickerResult, SpritePickerState};

fn result(name: &str) -> SpritePickerResult {
    SpritePickerResult {
        sprite_file_path: "assets/hero.sprite".to_string(),
        texture_path: "assets/hero.png".to_string(),
        sprite_name: name.to_string(),
        frame_index: 3,
    }
}

#[test]
fn new_picker_is_closed() {
    let s = SpritePickerState::new();
    assert!(!s.is_open);
    assert!(s.search_filter.is_empty());
    assert!(s.selected.is_none());
    let d = SpritePickerState::default();
    assert!(!d.is_open);
}

#[test]
fn open_clears_search_and_selection() {
    let mut s = SpritePickerState::new();
    s.search_filter = "tree".to_string();
    s.selected = Some(result("tree"));
    s.open();
    assert!(s.is_open);
    assert!(s.search_filter.is_empty());
    assert!(s.selected.is_none());
}

#[test]
fn close_keeps_search() {
    let mut s = SpritePickerState::new();
    s.open();
    s.search_filter = "hero".to_string();
    s.close();
    assert!(!s.is_open);
    assert_eq!(s.search_filter, "hero");
}

#[test]
fn pick_closes_and_hands_back() {
    let mut s = SpritePickerState::new();
    s.open();
    let r = s.finish_frame(Some(result("idle")));
    assert_eq!(r.map(|r| (r.sprite_name, r.frame_index)), Some(("idle".to_string(), 3)));
    assert!(!s.is_open);
}

#[test]
fn no_pick_keeps_open() {
    let mut s = SpritePickerState::new();
    s.open();
    assert!(s.finish_frame(None).is_none());
    assert!(s.is_open);
}

#[test]
fn closed_picker_hands_back_nothing() {
    let mut s = SpritePickerState::new();
    assert!(s.finish_frame(Some(result("idle"))).is_none());
    assert!(!s.is_open);
}

#[test]
fn search_is_case_insensitive() {
    assert!(matches_search("hero_sprite", "HERO"));
    assert!(matches_search("HeroSprite", "rosp"));
    assert!(!matches_search("hero", "tree"));
    assert!(matches_search("anything", ""));
    assert!(!matches_search("", "x"));
    assert!(matches_search("ÄPFEL", "äpf"));
}

#[test]
fn sprite_files_by_extension() {
    assert!(is_sprite_file("assets/player.sprite"));
    assert!(is_sprite_file("player.sprite"));
    assert!(!is_sprite_file("assets/player.png"));
    assert!(!is_sprite_file("assets/.sprite"));
    assert!(!is_sprite_file("assets/sprite"));
    assert!(!is_sprite_file("assets/player.sprite.bak"));
}

#[test]
fn picking_a_sprite_of_a_file() {
    let names = vec!["idle".to_string(), "run".to_string(), "jump".to_string()];
    let r = pick_sprite("assets/hero.sprite".to_string(), "assets/hero.png".to_string(), &names, 1);
    assert_eq!(r.sprite_file_path, "assets/hero.sprite");
    assert_eq!(r.texture_path, "assets/hero.png");
    assert_eq!(r.sprite_name, "run");
    assert_eq!(r.frame_index, 1);
}
