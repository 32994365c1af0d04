use engine::map_manager::MapManager;
use engine::text::{chars_less, chars_of, contains_text, replace_text, sorted_key_order, string_of_range, text_equals, trim_range};

#[test]
fn contains_and_equals() {
    assert!(contains_text("Composite Collider", "Collider"));
    assert!(contains_text("abc", ""));
    assert!(!contains_text("ab", "abc"));
    assert!(!contains_text("abd", "abc"));
    assert!(text_equals("tall", "tall"));
    assert!(!text_equals("tall", "Tall"));
}

#[test]
fn replace_all_occurrences() {
    assert_eq!(replace_text("aaa", "aa", "b"), "ba");
    assert_eq!(replace_text("x-y-z", "-", "+"), "x+y+z");
    assert_eq!(replace_text("none", "q", "r"), "none");
}

#[test]
fn trimming_and_ranges() {
    let s = chars_of("  hello \t");
    let (a, b) = trim_range(&s, 0, s.len());
    assert_eq!(string_of_range(&s, a, b), "hello");
}

#[test]
fn ordering_of_texts() {
    assert!(chars_less(&chars_of("a"), &chars_of("b")));
    assert!(chars_less(&chars_of("ab"), &chars_of("abc")));
    assert!(!chars_less(&chars_of("b"), &chars_of("a")));
    assert!(!chars_less(&chars_of("a"), &chars_of("a")));
    let keys = vec!["pear".to_string(), "apple".to_string(), "fig".to_string(), "apple".to_string()];
    assert_eq!(sorted_key_order(&keys), vec![1, 3, 2, 0]);
}

#[test]
fn map_manager_settings() {
    let mut m = MapManager::new();
    assert_eq!(m.get_collision_value(), 1);
    assert!(m.get_auto_regenerate_colliders());
    m.set_collision_value(3);
    m.set_auto_regenerate_colliders(false);
    assert_eq!(m.get_collision_value(), 3);
    assert!(!m.get_auto_regenerate_colliders());
    assert!(m.loaded_maps.is_empty());
    assert!(m.available_files.is_empty());
    assert!(m.selected_map.is_none());
}
