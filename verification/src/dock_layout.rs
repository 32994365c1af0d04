//! Dock layout of the editor: its tabs, the named preset layouts and the
//! custom layouts saved in a project.

use vstd::prelude::*;
use crate::text::{
    chars_lt, key_before, chars_of, ends_with, ends_with_at, is_key_order, sorted_key_order, stable_sorted_by_key,
    string_of_range, text_equals, trim_suffix_all, trim_suffix_end, views_of,
};

verus! {

broadcast use vstd::string::group_string_axioms;

/// A tab of the docking system.
#[derive(Debug, Clone, Copy, PartialEq, Eq, Structural)]
pub enum EditorTab {
    Hierarchy,
    Inspector,
    Scene,
    Game,
    Console,
    Project,
}

/// The title a tab shows.
pub open spec fn tab_title_text(tab: EditorTab) -> Seq<char> {
    match tab {
        EditorTab::Hierarchy => "Hierarchy"@,
        EditorTab::Inspector => "Inspector"@,
        EditorTab::Scene => "Scene"@,
        EditorTab::Game => "Game"@,
        EditorTab::Console => "Console"@,
        EditorTab::Project => "Project"@,
    }
}

/// The title of a tab.
pub fn tab_title(tab: &EditorTab) -> (title: &'static str)
    ensures
        title@ == tab_title_text(*tab),
{
    match tab {
        EditorTab::Hierarchy => "Hierarchy",
        EditorTab::Inspector => "Inspector",
        EditorTab::Scene => "Scene",
        EditorTab::Game => "Game",
        EditorTab::Console => "Console",
        EditorTab::Project => "Project",
    }
}

/// A built-in arrangement of the tabs.
#[derive(Debug, Clone, Copy, PartialEq, Eq, Structural)]
pub enum LayoutPreset {
    /// Hierarchy left, inspector right, scene in the middle over game,
    /// console and project.
    Default,
    /// Hierarchy and console left, scene and game over the inspector right.
    TwoColumn,
    /// Hierarchy, scene and game over console and project, inspector.
    Tall,
    /// Hierarchy, scene and game, inspector in one row, console and project
    /// below the inspector.
    Wide,
}

/// The preset that a layout name selects: `2column`, `tall` and `wide` name
/// theirs, any other name the default layout.
pub open spec fn preset_named(name: Seq<char>) -> LayoutPreset {
    if name == "2column"@ {
        LayoutPreset::TwoColumn
    } else if name == "tall"@ {
        LayoutPreset::Tall
    } else if name == "wide"@ {
        LayoutPreset::Wide
    } else {
        LayoutPreset::Default
    }
}

/// The preset layout of a name.
pub fn get_layout_by_name(name: &str) -> (preset: LayoutPreset)
    ensures
        preset == preset_named(name@),
{
    if text_equals(name, "2column") {
        LayoutPreset::TwoColumn
    } else if text_equals(name, "tall") {
        LayoutPreset::Tall
    } else if text_equals(name, "wide") {
        LayoutPreset::Wide
    } else {
        LayoutPreset::Default
    }
}

/// A file of a project's layout folder: its name and, for a legacy text
/// layout that could be read, its contents.
pub struct LayoutFile {
    pub file_name: String,
    pub contents: Option<String>,
}

impl View for LayoutFile {
    type V = (Seq<char>, Option<Seq<char>>);

    open spec fn view(&self) -> (Seq<char>, Option<Seq<char>>) {
        (
            self.file_name@,
            match self.contents {
                Some(c) => Some(c@),
                None => None,
            },
        )
    }
}

/// The extension of a saved dock state.
pub open spec fn json_ext() -> Seq<char> {
    seq!['.', 'j', 's', 'o', 'n']
}

/// The extension of a legacy layout, which holds a layout type.
pub open spec fn txt_ext() -> Seq<char> {
    seq!['.', 't', 'x', 't']
}

/// The layout type listed for a saved dock state.
pub open spec fn custom_layout_type() -> Seq<char> {
    seq!['c', 'u', 's', 't', 'o', 'm']
}

/// The layout, name and type, that a file of the layout folder stands for: a
/// `.json` file a custom layout, a `.txt` file that could be read the type it
/// holds; the name is the file's name without its trailing extensions.
pub open spec fn layout_entry(file: (Seq<char>, Option<Seq<char>>)) -> Option<(Seq<char>, Seq<char>)> {
    if ends_with(file.0, json_ext()) {
        Some((trim_suffix_all(file.0, json_ext()), custom_layout_type()))
    } else if ends_with(file.0, txt_ext()) && file.1 is Some {
        Some((trim_suffix_all(file.0, txt_ext()), file.1->0))
    } else {
        None
    }
}

/// The layouts of the files, in the files' order.
pub open spec fn listed_layouts(files: Seq<(Seq<char>, Option<Seq<char>>)>) -> Seq<(Seq<char>, Seq<char>)>
    decreases files.len(),
{
    if files.len() == 0 {
        Seq::empty()
    } else {
        let rest = listed_layouts(files.drop_last());
        match layout_entry(files.last()) {
            Some(l) => rest.push(l),
            None => rest,
        }
    }
}

/// The names of layouts.
pub open spec fn layout_names(layouts: Seq<(Seq<char>, Seq<char>)>) -> Seq<Seq<char>> {
    layouts.map_values(|l: (Seq<char>, Seq<char>)| l.0)
}

/// The views of files.
pub open spec fn file_views(files: Seq<LayoutFile>) -> Seq<(Seq<char>, Option<Seq<char>>)> {
    files.map_values(|f: LayoutFile| f@)
}

/// The views of name and type pairs.
pub open spec fn pair_views(pairs: Seq<(String, String)>) -> Seq<(Seq<char>, Seq<char>)> {
    pairs.map_values(|p: (String, String)| (p.0@, p.1@))
}

/// The custom layouts of a project's layout folder, as (name, type) pairs
/// sorted by name: saved dock states (`.json`) with the type `custom`, legacy
/// layouts (`.txt`) with the type they hold; other files are left out.
pub fn list_custom_layouts(files: &Vec<LayoutFile>) -> (layouts: Vec<(String, String)>)
    ensures
        stable_sorted_by_key(
            listed_layouts(file_views(files@)),
            layout_names(listed_layouts(file_views(files@))),
            pair_views(layouts@),
        ),
{
    let json = chars_of(".json");
    let txt = chars_of(".txt");
    let custom = "custom";
    proof {
        reveal_strlit(".json");
        reveal_strlit(".txt");
        reveal_strlit("custom");
        assert(json@ =~= json_ext());
        assert(txt@ =~= txt_ext());
        assert(custom@ =~= custom_layout_type());
    }
    let ghost fv = file_views(files@);
    let mut listed: Vec<(String, String)> = Vec::new();
    let mut names: Vec<String> = Vec::new();
    let mut i: usize = 0;
    while i < files.len()
        invariant
            i <= files@.len(),
            fv == file_views(files@),
            json@ == json_ext(),
            txt@ == txt_ext(),
            custom@ == custom_layout_type(),
            pair_views(listed@) == listed_layouts(fv.subrange(0, i as int)),
            views_of(names@) == layout_names(pair_views(listed@)),
        decreases files@.len() - i,
    {
        let name = chars_of(files[i].file_name.as_str());
        proof {
            assert(name@.subrange(0, name@.len() as int) =~= name@);
            assert(fv.subrange(0, i + 1).drop_last() =~= fv.subrange(0, i as int));
            assert(fv.subrange(0, i + 1).last() == files@[i as int]@);
        }
        let ghost before = listed@;
        let ghost before_names = names@;
        if ends_with_at(&name, name.len(), &json) {
            let e = trim_suffix_end(&name, &json);
            let n = string_of_range(&name, 0, e);
            listed.push((n.clone(), String::from_str(custom)));
            names.push(n);
            proof {
                assert(pair_views(listed@) =~= pair_views(before).push(pair_views(listed@).last()));
                assert(views_of(names@) =~= views_of(before_names).push(n@));
            }
        } else if ends_with_at(&name, name.len(), &txt) {
            match &files[i].contents {
                Some(c) => {
                    let e = trim_suffix_end(&name, &txt);
                    let n = string_of_range(&name, 0, e);
                    listed.push((n.clone(), c.clone()));
                    names.push(n);
                    proof {
                        assert(pair_views(listed@) =~= pair_views(before).push(pair_views(listed@).last()));
                        assert(views_of(names@) =~= views_of(before_names).push(n@));
                    }
                },
                None => {},
            }
        }
        proof {
            assert(layout_names(pair_views(listed@)) =~= views_of(names@));
        }
        i += 1;
    }
    proof {
        assert(fv.subrange(0, files@.len() as int) =~= fv);
    }
    let order = sorted_key_order(&names);
    let mut layouts: Vec<(String, String)> = Vec::new();
    let mut k: usize = 0;
    while k < order.len()
        invariant
            is_key_order(views_of(names@), order@),
            names@.len() == listed@.len(),
            k <= order@.len(),
            layouts@.len() == k,
            forall|j: int| 0 <= j < k ==> #[trigger] pair_views(layouts@)[j] == pair_views(listed@)[order@[j] as int],
        decreases order@.len() - k,
    {
        let j = order[k];
        assert(j < listed@.len());
        let ghost before = layouts@;
        layouts.push((listed[j].0.clone(), listed[j].1.clone()));
        proof {
            assert forall|q: int| 0 <= q < k + 1 implies #[trigger] pair_views(layouts@)[q] == pair_views(listed@)[order@[q] as int] by {
                if q < k {
                    assert(layouts@[q] == before[q]);
                    assert(pair_views(before)[q] == pair_views(listed@)[order@[q] as int]);
                } else {
                    assert(layouts@[q].0@ == listed@[j as int].0@);
                    assert(layouts@[q].1@ == listed@[j as int].1@);
                }
            }
        }
        k += 1;
    }
    proof {
        let l = listed_layouts(file_views(files@));
        assert(pair_views(listed@) == l);
        assert(views_of(names@) == layout_names(l));
        assert(is_key_order(layout_names(l), order@));
        assert(pair_views(layouts@).len() == order@.len());
    }
    layouts
}

/// The custom layouts come sorted by name: each name is before or equal to
/// the next.
pub proof fn lemma_custom_layouts_sorted(
    listed: Seq<(Seq<char>, Seq<char>)>,
    out: Seq<(Seq<char>, Seq<char>)>,
)
    requires
        stable_sorted_by_key(listed, layout_names(listed), out),
    ensures
        forall|i: int, j: int|
            0 <= i < j < out.len() ==> chars_lt(#[trigger] out[i].0, #[trigger] out[j].0) || out[i].0
                == out[j].0,
{
    let keys = layout_names(listed);
    let order = choose|order: Seq<usize>|
        #![trigger is_key_order(keys, order)]
        is_key_order(keys, order) && out.len() == order.len() && forall|i: int|
            0 <= i < out.len() ==> out[i] == listed[#[trigger] order[i] as int];
    assert forall|i: int, j: int| 0 <= i < j < out.len() implies chars_lt(
        #[trigger] out[i].0,
        #[trigger] out[j].0,
    ) || out[i].0 == out[j].0 by {
        assert(key_before(keys, order[i], order[j]));
        assert(out[i] == listed[order[i] as int]);
        assert(out[j] == listed[order[j] as int]);
    }
}

} // verus!
