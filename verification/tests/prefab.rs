use engine::prefab::{
    check_element, check_prefab, check_prefab_extension, find_element_by_name, find_element_by_name_mut, DragMode, EditorTool, Prefab,
    PrefabEditor, PrefabEditorState, PrefabElement, PropertiesPanel, RangeChecks,
};

fn ok_ranges() -> RangeChecks {
    RangeChecks { anchor_min: true, anchor_max: true, pivot: true }
}

fn element(name: &str, children: Vec<PrefabElement>) -> PrefabElement {
    PrefabElement { name: name.to_string(), ranges: ok_ranges(), children }
}

fn sample() -> Prefab {
    Prefab {
        name: "Menu".to_string(),
        root: element(
            "Root",
            vec![
                element("Panel", vec![element("Title", vec![]), element("Button", vec![])]),
                element("Footer", vec![element("Button", vec![])]),
            ],
        ),
    }
}

#[test]
fn valid_prefab_passes() {
    assert_eq!(check_prefab(&sample()), Ok(()));
}

#[test]
fn empty_prefab_name() {
    let mut p = sample();
    p.name = String::new();
    assert_eq!(check_prefab(&p), Err("Prefab name cannot be empty".to_string()));
}

#[test]
fn empty_element_name() {
    let mut p = sample();
    p.root.children[1].children[0].name = String::new();
    assert_eq!(check_prefab(&p), Err("Element name cannot be empty".to_string()));
}

#[test]
fn range_errors_in_order() {
    let mut e = element("Knob", vec![]);
    e.ranges = RangeChecks { anchor_min: false, anchor_max: false, pivot: false };
    assert_eq!(check_element(&e), Err("Element 'Knob': anchor_min values must be between 0 and 1".to_string()));
    e.ranges.anchor_min = true;
    assert_eq!(check_element(&e), Err("Element 'Knob': anchor_max values must be between 0 and 1".to_string()));
    e.ranges.anchor_max = true;
    assert_eq!(check_element(&e), Err("Element 'Knob': pivot values must be between 0 and 1".to_string()));
    e.ranges.pivot = true;
    assert_eq!(check_element(&e), Ok(()));
}

#[test]
fn first_problem_in_tree_order() {
    let mut p = sample();
    p.root.children[0].children[1].ranges.pivot = false;
    p.root.children[1].ranges.anchor_min = false;
    assert_eq!(check_prefab(&p), Err("Element 'Button': pivot values must be between 0 and 1".to_string()));
}

#[test]
fn parent_checked_before_children() {
    let mut p = sample();
    p.root.children[0].children[0].name = String::new();
    p.root.children[0].ranges.anchor_max = false;
    assert_eq!(check_prefab(&p), Err("Element 'Panel': anchor_max values must be between 0 and 1".to_string()));
}

#[test]
fn extension_checks() {
    assert_eq!(check_prefab_extension("ui/menu.uiprefab"), Ok(()));
    assert_eq!(
        check_prefab_extension("ui/menu.json"),
        Err("Invalid file extension. Expected .uiprefab, got .json".to_string())
    );
    assert_eq!(check_prefab_extension("ui/menu"), Err("File has no extension. Expected .uiprefab".to_string()));
    assert_eq!(check_prefab_extension("ui/.uiprefab"), Err("File has no extension. Expected .uiprefab".to_string()));
    assert_eq!(check_prefab_extension("menu."), Err("Invalid file extension. Expected .uiprefab, got .".to_string()));
}

#[test]
fn find_in_preorder() {
    let p = sample();
    let found = find_element_by_name(&p.root, "Button").unwrap();
    assert_eq!(found.name, "Button");
    assert!(found.children.is_empty());
    assert_eq!(find_element_by_name(&p.root, "Footer").map(|e| e.children.len()), Some(1));
    assert_eq!(find_element_by_name(&p.root, "Root").map(|e| e.children.len()), Some(2));
    assert!(find_element_by_name(&p.root, "Missing").is_none());
}

#[test]
fn state_selection() {
    let mut s = PrefabEditorState::new();
    assert_eq!(s.current_tool, EditorTool::Select);
    assert_eq!(s.drag_mode, DragMode::NoDrag);
    assert!(!s.is_dragging && !s.modified);
    assert!(s.get_selected_element().is_none());
    s.current_prefab = Some(sample());
    s.select_element("Title".to_string());
    assert_eq!(s.get_selected_element().map(|e| e.name.clone()), Some("Title".to_string()));
    s.select_element("Nothing".to_string());
    assert!(s.get_selected_element().is_none());
    s.deselect();
    assert!(s.selected_element.is_none());
    s.mark_modified();
    assert!(s.modified);
    let d = PrefabEditorState::default();
    assert!(d.current_prefab.is_none());
}

#[test]
fn properties_panel_shows_palette() {
    assert!(PropertiesPanel::new().show_component_palette);
    assert!(PropertiesPanel::default().show_component_palette);
}

#[test]
fn load_checks_extension_then_prefab() {
    let mut editor = PrefabEditor::new();
    let r = editor.load_prefab("menu.json".to_string(), Ok(sample()));
    assert_eq!(r, Err("Invalid file extension. Expected .uiprefab, got .json".to_string()));
    assert!(editor.state.current_prefab.is_none());

    let r = editor.load_prefab("menu.uiprefab".to_string(), Err("Failed to read file: gone".to_string()));
    assert_eq!(r, Err("Failed to read file: gone".to_string()));

    let mut bad = sample();
    bad.name = String::new();
    let r = editor.load_prefab("menu.uiprefab".to_string(), Ok(bad));
    assert_eq!(r, Err("Prefab name cannot be empty".to_string()));
    assert!(editor.state.current_prefab.is_none());

    editor.state.modified = true;
    assert_eq!(editor.load_prefab("ui/menu.uiprefab".to_string(), Ok(sample())), Ok(()));
    assert_eq!(editor.state.current_file, Some("ui/menu.uiprefab".to_string()));
    assert!(!editor.state.modified);
    assert_eq!(editor.state.current_prefab.as_ref().map(|p| p.name.clone()), Some("Menu".to_string()));
}

#[test]
fn save_needs_prefab_and_file() {
    let mut editor = PrefabEditor::default();
    assert_eq!(editor.check_save(), Err("No prefab loaded or no file path".to_string()));
    editor.new_prefab("Hud".to_string(), ok_ranges());
    assert!(editor.state.modified);
    assert!(editor.state.current_file.is_none());
    assert_eq!(editor.check_save(), Err("No prefab loaded or no file path".to_string()));
    assert_eq!(editor.check_save_as("hud.uiprefab"), Ok(()));
    editor.saved_as("hud.uiprefab".to_string());
    assert!(!editor.state.modified);
    assert_eq!(editor.check_save(), Ok(()));
    editor.state.mark_modified();
    editor.saved();
    assert!(!editor.state.modified);
}

#[test]
fn save_as_checks() {
    let mut editor = PrefabEditor::new();
    assert_eq!(editor.check_save_as("hud.png"), Err("Invalid file extension. Expected .uiprefab, got .png".to_string()));
    assert_eq!(editor.check_save_as("hud.uiprefab"), Err("No prefab loaded".to_string()));
    editor.new_prefab(String::new(), ok_ranges());
    assert_eq!(editor.check_save_as("hud.uiprefab"), Err("Prefab name cannot be empty".to_string()));
}

#[test]
fn new_prefab_has_root() {
    let mut editor = PrefabEditor::new();
    editor.new_prefab("Hud".to_string(), ok_ranges());
    let p = editor.state.current_prefab.as_ref().unwrap();
    assert_eq!(p.name, "Hud");
    assert_eq!(p.root.name, "Root");
    assert!(p.root.children.is_empty());
    assert_eq!(editor.validate_prefab(p), Ok(()));
}

#[test]
fn mutable_search_changes_first_match_only() {
    let mut p = sample();
    {
        let found = find_element_by_name_mut(&mut p.root, "Button").unwrap();
        found.ranges.pivot = false;
    }
    // the first "Button" (under "Panel") changed; the one under "Footer" did not
    assert!(!p.root.children[0].children[1].ranges.pivot);
    assert!(p.root.children[1].children[0].ranges.pivot);
    assert_eq!(
        check_prefab(&p),
        Err("Element 'Button': pivot values must be between 0 and 1".to_string())
    );
    assert!(find_element_by_name_mut(&mut p.root, "Missing").is_none());
}

#[test]
fn selected_element_can_be_edited() {
    let mut s = PrefabEditorState::new();
    assert!(s.get_selected_element_mut().is_none());
    s.current_prefab = Some(sample());
    assert!(s.get_selected_element_mut().is_none());
    s.select_element("Footer".to_string());
    {
        let e = s.get_selected_element_mut().unwrap();
        e.name = "Bottom".to_string();
    }
    let root = &s.current_prefab.as_ref().unwrap().root;
    assert_eq!(root.children[1].name, "Bottom");
    assert_eq!(root.children[0].name, "Panel");
    assert_eq!(s.selected_element, Some("Footer".to_string()));
    // the selection now names no element
    assert!(s.get_selected_element_mut().is_none());
}
