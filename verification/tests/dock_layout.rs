use engine::dock_layout::{get_layout_by_name, list_custom_layouts, tab_title, EditorTab, LayoutFile, LayoutPreset};

#[test]
fn tab_titles() {
    assert_eq!(tab_title(&EditorTab::Hierarchy), "Hierarchy");
    assert_eq!(tab_title(&EditorTab::Inspector), "Inspector");
    assert_eq!(tab_title(&EditorTab::Scene), "Scene");
    assert_eq!(tab_title(&EditorTab::Game), "Game");
    assert_eq!(tab_title(&EditorTab::Console), "Console");
    assert_eq!(tab_title(&EditorTab::Project), "Project");
}

#[test]
fn presets_by_name() {
    assert_eq!(get_layout_by_name("default"), LayoutPreset::Default);
    assert_eq!(get_layout_by_name("2column"), LayoutPreset::TwoColumn);
    assert_eq!(get_layout_by_name("tall"), LayoutPreset::Tall);
    assert_eq!(get_layout_by_name("wide"), LayoutPreset::Wide);
    assert_eq!(get_layout_by_name("Wide"), LayoutPreset::Default);
    assert_eq!(get_layout_by_name(""), LayoutPreset::Default);
    assert_eq!(get_layout_by_name("unknown"), LayoutPreset::Default);
}

fn file(name: &str, contents: Option<&str>) -> LayoutFile {
    LayoutFile { file_name: name.to_string(), contents: contents.map(|c| c.to_string()) }
}

#[test]
fn custom_layouts_listed_and_sorted() {
    let files = vec![
        file("zeta.json", None),
        file("alpha.txt", Some("tall")),
        file("notes.md", None),
        file("broken.txt", None),
        file("beta.json", None),
    ];
    let layouts = list_custom_layouts(&files);
    assert_eq!(
        layouts,
        vec![
            ("alpha".to_string(), "tall".to_string()),
            ("beta".to_string(), "custom".to_string()),
            ("zeta".to_string(), "custom".to_string()),
        ]
    );
}

#[test]
fn repeated_extension_is_trimmed() {
    let files = vec![file("a.json.json", None), file("b.txt.txt", Some("wide"))];
    let layouts = list_custom_layouts(&files);
    assert_eq!(layouts, vec![("a".to_string(), "custom".to_string()), ("b".to_string(), "wide".to_string())]);
}

#[test]
fn equal_names_keep_their_order() {
    let files = vec![file("same.txt", Some("first")), file("same.json", None)];
    let layouts = list_custom_layouts(&files);
    assert_eq!(layouts, vec![("same".to_string(), "first".to_string()), ("same".to_string(), "custom".to_string())]);
}

#[test]
fn no_layout_files() {
    let files = vec![file("readme", None)];
    assert!(list_custom_layouts(&files).is_empty());
    assert!(list_custom_layouts(&Vec::new()).is_empty());
}

#[test]
fn layouts_sort_by_code_point() {
    let files = vec![file("b.json", None), file("B.json", None), file("a.json", None)];
    let names: Vec<String> = list_custom_layouts(&files).into_iter().map(|(n, _)| n).collect();
    assert_eq!(names, vec!["B".to_string(), "a".to_string(), "b".to_string()]);
}
