use engine::hierarchy::{
    decimal_text, entity_label, root_entities, scene_title, selection_after_delete, signed_decimal_text, NamedEntity,
};

#[test]
fn decimal_numbers() {
    assert_eq!(decimal_text(0), "0");
    assert_eq!(decimal_text(7), "7");
    assert_eq!(decimal_text(10), "10");
    assert_eq!(decimal_text(1234567890), "1234567890");
    assert_eq!(decimal_text(u64::MAX), u64::MAX.to_string());
}

#[test]
fn entity_labels() {
    let name = "Player".to_string();
    assert_eq!(entity_label(Some(&name), 3), "Player");
    assert_eq!(entity_label(None, 42), "Entity 42");
}

#[test]
fn scene_titles() {
    assert_eq!(scene_title(&None), "Untitled Scene");
    assert_eq!(scene_title(&Some("scenes/level1.scene".to_string())), "level1");
    assert_eq!(scene_title(&Some("scenes/archive.tar.scene".to_string())), "archive.tar");
    assert_eq!(scene_title(&Some("scenes/.hidden".to_string())), ".hidden");
    assert_eq!(scene_title(&Some("..".to_string())), "Untitled");
    assert_eq!(scene_title(&Some(String::new())), "Untitled");
}

#[test]
fn roots_sorted() {
    let named = vec![
        NamedEntity { entity: 9, has_parent: false },
        NamedEntity { entity: 2, has_parent: true },
        NamedEntity { entity: 5, has_parent: false },
        NamedEntity { entity: 1, has_parent: false },
        NamedEntity { entity: 5, has_parent: false },
    ];
    assert_eq!(root_entities(&named), vec![1, 5, 5, 9]);
    assert!(root_entities(&Vec::new()).is_empty());
}

#[test]
fn deleting_selected_clears_selection() {
    assert_eq!(selection_after_delete(Some(4), 4), None);
    assert_eq!(selection_after_delete(Some(4), 5), Some(4));
    assert_eq!(selection_after_delete(None, 5), None);
}

#[test]
fn signed_numbers() {
    assert_eq!(signed_decimal_text(-42), "-42");
    assert_eq!(signed_decimal_text(0), "0");
    assert_eq!(signed_decimal_text(i64::MAX), i64::MAX.to_string());
    assert_eq!(signed_decimal_text(i64::MIN + 1), (i64::MIN + 1).to_string());
    assert_eq!(signed_decimal_text(i64::MIN), i64::MIN.to_string());
}
